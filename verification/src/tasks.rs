//! Bounded logs: a stage task's log and a hub's activity list keep only
//! their most recent entries.
use vstd::prelude::*;
use crate::model::{opt_view, FilmTask, TASK_LOG_MAX_LINES};
use crate::text::{
    blank, chars_of, is_blank, line_ranges, lines, str_eq, string_of_range, strip_range, strs, trim,
    trimmed, CharSet,
};

verus! {

/// The last `max` elements of `s` (all of them when there are fewer).
pub open spec fn keep_last<T>(s: Seq<T>, max: nat) -> Seq<T> {
    if s.len() <= max {
        s
    } else {
        s.skip(s.len() - max)
    }
}

/// Keeping the last `max` after each push is keeping the last `max` of all.
pub proof fn lemma_keep_last_push<T>(s: Seq<T>, x: T, max: nat)
    ensures
        keep_last(keep_last(s, max).push(x), max) == keep_last(s.push(x), max),
{
    if s.len() > max {
        let k = keep_last(s, max);
        if max == 0 {
            assert(keep_last(k.push(x), max) =~= keep_last(s.push(x), max));
        } else {
            assert(k.push(x).skip(1) =~= s.push(x).skip(s.len() + 1 - max));
        }
    }
}

/// Appends `x`, then drops the oldest elements beyond `max`.
pub fn push_bounded<T>(v: &mut Vec<T>, x: T, max: usize)
    ensures
        final(v)@ == keep_last(old(v)@.push(x), max as nat),
{
    v.push(x);
    if v.len() > max {
        let cut = v.len() - max;
        let ghost before = v@;
        let rest = v.split_off(cut);
        *v = rest;
        assert(v@ =~= before.skip(cut as int));
    }
}

proof fn lemma_strs_keep_last(s: Seq<String>, max: nat)
    ensures
        strs(keep_last(s, max)) == keep_last(strs(s), max),
{
    assert(strs(keep_last(s, max)) =~= keep_last(strs(s), max));
}

/// The lines that are not blank, in order.
pub open spec fn nonblank(ls: Seq<Seq<char>>) -> Seq<Seq<char>>
    decreases ls.len(),
{
    if ls.len() == 0 {
        seq![]
    } else if is_blank(ls.last()) {
        nonblank(ls.drop_last())
    } else {
        nonblank(ls.drop_last()).push(ls.last())
    }
}

/// A task log after appending a text: each non-blank line of the text is
/// added in turn, and after each addition the log keeps its last
/// [`TASK_LOG_MAX_LINES`] lines. A text without such lines leaves the log
/// as it is.
pub open spec fn log_after(log: Seq<Seq<char>>, text: Seq<char>) -> Seq<Seq<char>> {
    if nonblank(lines(text)).len() == 0 {
        log
    } else {
        keep_last(log + nonblank(lines(text)), TASK_LOG_MAX_LINES as nat)
    }
}

/// Appending to a task log never leaves it with more than
/// [`TASK_LOG_MAX_LINES`] lines when it had no more before, and a log that
/// received a line always ends within the bound.
pub proof fn law_task_log_bounded(log: Seq<Seq<char>>, text: Seq<char>)
    ensures
        log.len() <= TASK_LOG_MAX_LINES ==> log_after(log, text).len() <= TASK_LOG_MAX_LINES,
        nonblank(lines(text)).len() > 0 ==> log_after(log, text).len() <= TASK_LOG_MAX_LINES,
        nonblank(lines(text)).len() > 0 ==> log_after(log, text).last() == nonblank(lines(text)).last(),
{
}

impl FilmTask {
    /// Appends the non-blank lines of `text` to the task's log, which keeps
    /// its last [`TASK_LOG_MAX_LINES`] lines.
    pub fn append_log(&mut self, text: &str)
        ensures
            strs(final(self).log@) == log_after(strs(old(self).log@), text@),
            final(self).id == old(self).id,
            final(self).project_id == old(self).project_id,
            final(self).stage == old(self).stage,
            final(self).status == old(self).status,
            final(self).output == old(self).output,
            final(self).error == old(self).error,
            final(self).created_at == old(self).created_at,
            final(self).finished_at == old(self).finished_at,
    {
        let v = chars_of(text);
        let rs = line_ranges(&v);
        let ghost ls = lines(v@);
        let ghost start = strs(self.log@);
        let mut i: usize = 0;
        assert(ls.take(0) =~= Seq::<Seq<char>>::empty());
        assert(start + Seq::<Seq<char>>::empty() =~= start);
        while i < rs.len()
            invariant
                i <= rs@.len(),
                ls == lines(v@),
                v@ == text@,
                rs@.len() == ls.len(),
                forall|k: int| 0 <= k < rs@.len() ==> (#[trigger] rs@[k]).0 <= rs@[k].1 <= v@.len(),
                forall|k: int|
                    0 <= k < rs@.len() ==> #[trigger] ls[k] == v@.subrange(
                        rs@[k].0 as int,
                        rs@[k].1 as int,
                    ),
                strs(self.log@) == if nonblank(ls.take(i as int)).len() == 0 {
                    start
                } else {
                    keep_last(start + nonblank(ls.take(i as int)), TASK_LOG_MAX_LINES as nat)
                },
                self.id == old(self).id,
                self.project_id == old(self).project_id,
                self.stage == old(self).stage,
                self.status == old(self).status,
                self.output == old(self).output,
                self.error == old(self).error,
                self.created_at == old(self).created_at,
                self.finished_at == old(self).finished_at,
            decreases rs.len() - i,
        {
            let (p, q) = rs[i];
            let ghost acc = nonblank(ls.take(i as int));
            assert(ls.take(i + 1).drop_last() =~= ls.take(i as int));
            assert(ls.take(i + 1).last() == ls[i as int]);
            let (a, b) = strip_range(&v, p, q, &CharSet::Space);
            if a < b {
                let line = string_of_range(&v, p, q);
                let ghost pushed = line;
                let ghost before = self.log@;
                push_bounded(&mut self.log, line, TASK_LOG_MAX_LINES);
                proof {
                    lemma_strs_keep_last(before.push(pushed), TASK_LOG_MAX_LINES as nat);
                    assert(strs(before.push(pushed)) =~= strs(before).push(ls[i as int]));
                    assert(nonblank(ls.take(i + 1)) == acc.push(ls[i as int]));
                    assert(start + acc.push(ls[i as int]) =~= (start + acc).push(ls[i as int]));
                    if acc.len() > 0 {
                        lemma_keep_last_push(start + acc, ls[i as int], TASK_LOG_MAX_LINES as nat);
                    }
                }
            } else {
                assert(nonblank(ls.take(i + 1)) == acc);
            }
            i = i + 1;
        }
        assert(ls.take(rs@.len() as int) =~= ls);
    }
}

impl FilmTask {
    /// A new task of a project's stage, queued, created at `created_at`
    /// (seconds since the epoch).
    pub fn queued(id: String, project_id: String, stage: String, created_at: i64) -> (r: FilmTask)
        ensures
            r.id == id,
            r.project_id == project_id,
            r.stage == stage,
            r.status@ == "queued"@,
            r.log@.len() == 0,
            r.output is None,
            r.error is None,
            r.created_at == created_at,
            r.finished_at is None,
    {
        FilmTask {
            id,
            project_id,
            stage,
            status: String::from_str("queued"),
            log: Vec::new(),
            output: None,
            error: None,
            created_at,
            finished_at: None,
        }
    }

    /// The task starts running.
    pub fn mark_running(&mut self)
        ensures
            final(self).status@ == "running"@,
            final(self).id == old(self).id,
            final(self).project_id == old(self).project_id,
            final(self).stage == old(self).stage,
            final(self).created_at == old(self).created_at,
            final(self).log == old(self).log,
            final(self).output == old(self).output,
            final(self).error == old(self).error,
            final(self).finished_at == old(self).finished_at,
    {
        self.status = String::from_str("running");
    }

    /// The task ends with `status` (`done` or `error`): the closing line is
    /// logged, the output recorded, the line kept as the error when the
    /// status is `error`, and the end time set to `now`.
    pub fn finish(&mut self, status: &str, line: &str, output: Option<String>, now: i64)
        ensures
            strs(final(self).log@) == log_after(strs(old(self).log@), line@),
            final(self).status@ == status@,
            final(self).output == output,
            status@ == "error"@ ==> final(self).error is Some && final(self).error->0@ == line@,
            status@ != "error"@ ==> final(self).error == old(self).error,
            final(self).finished_at == Some(now),
            final(self).id == old(self).id,
            final(self).project_id == old(self).project_id,
            final(self).stage == old(self).stage,
            final(self).created_at == old(self).created_at,
    {
        self.append_log(line);
        self.status = String::from_str(status);
        self.output = output;
        if str_eq(status, "error") {
            self.error = Some(String::from_str(line));
        }
        self.finished_at = Some(now);
    }
}

/// Capacity of a hub's activity list.
pub const ACTIVITY_MAX: usize = 200;

/// The author an activity entry records: the trimmed name, `anonymous`
/// when blank.
pub open spec fn activity_author_of(author: Seq<char>) -> Seq<char> {
    if is_blank(author) {
        "anonymous"@
    } else {
        trim(author)
    }
}

/// The author an activity entry records (see [`activity_author_of`]).
pub fn activity_author(author: &str) -> (r: String)
    ensures
        r@ == activity_author_of(author@),
{
    if blank(author) {
        String::from_str("anonymous")
    } else {
        trimmed(author)
    }
}

/// One entry of a hub's activity list.
#[derive(Debug, Clone)]
pub struct ActivityEntry {
    pub ts: String,
    pub author: String,
    pub action: String,
    pub target: String,
}

/// The entry that records `action` on `target` by `author` at `ts`.
pub open spec fn activity_entry_of(
    ts: Seq<char>,
    author: Seq<char>,
    action: Seq<char>,
    target: Seq<char>,
) -> (Seq<char>, Seq<char>, Seq<char>, Seq<char>) {
    (ts, activity_author_of(author), action, target)
}

/// The character views of activity entries.
pub open spec fn activity_views(v: Seq<ActivityEntry>) -> Seq<(Seq<char>, Seq<char>, Seq<char>, Seq<char>)> {
    v.map_values(|e: ActivityEntry| (e.ts@, e.author@, e.action@, e.target@))
}

/// Records an activity: the entry for `author`, `action` and `target` at
/// `ts` is appended and the list keeps its last [`ACTIVITY_MAX`] entries.
pub fn record_activity(list: &mut Vec<ActivityEntry>, ts: String, author: &str, action: &str, target: &str)
    ensures
        activity_views(final(list)@) == keep_last(
            activity_views(old(list)@).push(activity_entry_of(ts@, author@, action@, target@)),
            ACTIVITY_MAX as nat,
        ),
{
    let e = ActivityEntry {
        ts,
        author: activity_author(author),
        action: String::from_str(action),
        target: String::from_str(target),
    };
    let ghost before = list@;
    push_bounded(list, e, ACTIVITY_MAX);
    proof {
        assert(activity_views(before.push(e)) =~= activity_views(before).push(
            activity_entry_of(e.ts@, author@, action@, target@),
        ));
        assert(activity_views(keep_last(before.push(e), ACTIVITY_MAX as nat)) =~= keep_last(
            activity_views(before.push(e)),
            ACTIVITY_MAX as nat,
        ));
    }
}

/// The activity list never holds more than [`ACTIVITY_MAX`] entries after a
/// record, and its newest entry is the one just recorded.
pub proof fn law_activity_ring(
    list: Seq<(Seq<char>, Seq<char>, Seq<char>, Seq<char>)>,
    e: (Seq<char>, Seq<char>, Seq<char>, Seq<char>),
)
    ensures
        keep_last(list.push(e), ACTIVITY_MAX as nat).len() <= ACTIVITY_MAX,
        keep_last(list.push(e), ACTIVITY_MAX as nat).last() == e,
        list.len() >= ACTIVITY_MAX ==> keep_last(list.push(e), ACTIVITY_MAX as nat) == list.skip(
            list.len() + 1 - ACTIVITY_MAX,
        ).push(e),
{
    if list.len() >= ACTIVITY_MAX {
        assert(list.push(e).skip(list.len() + 1 - ACTIVITY_MAX) =~= list.skip(list.len() + 1 - ACTIVITY_MAX).push(e));
    }
}

/// A task as the listing shows it: everything but its log.
#[derive(Debug, Clone)]
pub struct TaskSummary {
    pub id: String,
    pub project_id: String,
    pub stage: String,
    pub status: String,
    pub output: Option<String>,
    pub error: Option<String>,
    pub created_at: i64,
    pub finished_at: Option<i64>,
}

fn copy_opt(o: &Option<String>) -> (r: Option<String>)
    ensures
        opt_view(r) == opt_view(*o),
{
    match o {
        Some(s) => Some(s.clone()),
        None => None,
    }
}

/// The summary of a task: its fields without the log.
pub fn task_summary(t: &FilmTask) -> (r: TaskSummary)
    ensures
        r.id@ == t.id@,
        r.project_id@ == t.project_id@,
        r.stage@ == t.stage@,
        r.status@ == t.status@,
        opt_view(r.output) == opt_view(t.output),
        opt_view(r.error) == opt_view(t.error),
        r.created_at == t.created_at,
        r.finished_at == t.finished_at,
{
    TaskSummary {
        id: t.id.clone(),
        project_id: t.project_id.clone(),
        stage: t.stage.clone(),
        status: t.status.clone(),
        output: copy_opt(&t.output),
        error: copy_opt(&t.error),
        created_at: t.created_at,
        finished_at: t.finished_at,
    }
}

} // verus!
