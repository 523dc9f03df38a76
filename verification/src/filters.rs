//! Task filtering and the "today" view.
use vstd::prelude::*;

use crate::calendar::{local_day_of, local_in_range, Date};
use crate::models::{task_models, Priority, Status, Task, TaskModel};
use crate::text::{
    chars_of, contains_chars, copy_str, push_str, spec_contains, lowercased, to_lowercase,
};

verus! {

#[derive(Debug, Clone, Copy, PartialEq, Eq, Structural)]
pub enum DueCategory {
    Overdue,
    Today,
    ThisWeek,
}

#[derive(Debug, Clone)]
pub struct TaskFilter {
    pub project_id: Option<i64>,
    pub tag: Option<String>,
    pub status: Option<Status>,
    pub priority: Option<Priority>,
    pub due_category: Option<DueCategory>,
    pub query: Option<String>,
    pub include_done: bool,
}

/// A filter, as mathematical values.
pub struct FilterModel {
    pub project_id: Option<i64>,
    pub tag: Option<Seq<char>>,
    pub status: Option<Status>,
    pub priority: Option<Priority>,
    pub due_category: Option<DueCategory>,
    pub query: Option<Seq<char>>,
    pub include_done: bool,
}

pub open spec fn opt_text(s: Option<String>) -> Option<Seq<char>> {
    match s {
        Some(x) => Some(x@),
        None => None,
    }
}

impl View for TaskFilter {
    type V = FilterModel;

    open spec fn view(&self) -> FilterModel {
        FilterModel {
            project_id: self.project_id,
            tag: opt_text(self.tag),
            status: self.status,
            priority: self.priority,
            due_category: self.due_category,
            query: opt_text(self.query),
            include_done: self.include_done,
        }
    }
}

impl Default for TaskFilter {
    fn default() -> (res: Self)
        ensures
            res@ == (FilterModel {
                project_id: None,
                tag: None,
                status: None,
                priority: None,
                due_category: None,
                query: None,
                include_done: false,
            }),
    {
        TaskFilter {
            project_id: None,
            tag: None,
            status: None,
            priority: None,
            due_category: None,
            query: None,
            include_done: false,
        }
    }
}

/// The text a search looks in: title, a space, description.
pub open spec fn haystack(t: TaskModel) -> Seq<char> {
    t.title + " "@ + t.description
}

/// Whether the lower-cased search text occurs in the lower-cased title and
/// description.
pub open spec fn query_hits(t: TaskModel, q: Seq<char>) -> bool {
    spec_contains(lowercased(haystack(t)), lowercased(q))
}

/// Whether filter `f` lets task `t` through.
pub open spec fn accepts(f: FilterModel, t: TaskModel, today: Date, week_days: int) -> bool {
    &&& (f.include_done || !t.done() || f.status == Some(Status::Done))
    &&& (f.project_id matches Some(pid) ==> t.project_id == Some(pid))
    &&& (f.tag matches Some(tag) ==> t.tags.contains(tag))
    &&& (f.status matches Some(st) ==> t.status == st)
    &&& (f.priority matches Some(pr) ==> t.priority == pr)
    &&& match f.due_category {
        Some(DueCategory::Overdue) => t.overdue(today),
        Some(DueCategory::Today) => t.due_on(today),
        Some(DueCategory::ThisWeek) => t.due_within(today, week_days),
        None => true,
    }
    &&& (f.query matches Some(q) ==> query_hits(t, q))
}

/// The test `accepts(f, _, today, week_days)`.
pub open spec fn accepted_by(f: FilterModel, today: Date, week_days: int) -> spec_fn(TaskModel) -> bool {
    |t: TaskModel| accepts(f, t, today, week_days)
}

/// Whether a task belongs in the today view: not done, and overdue, due
/// today or in progress.
pub open spec fn in_today_view(t: TaskModel, today: Date) -> bool {
    !t.done() && (t.overdue(today) || t.due_on(today) || t.status == Status::Doing)
}

pub open spec fn today_test(today: Date) -> spec_fn(TaskModel) -> bool {
    |t: TaskModel| in_today_view(t, today)
}

/// Lower-cased title and description joined by a space.
fn lower_haystack(t: &Task) -> (res: Vec<char>)
    ensures
        res@ == lowercased(haystack(t@)),
{
    let mut h = copy_str(t.title.as_str());
    push_str(&mut h, " ");
    push_str(&mut h, t.description.as_str());
    let l = to_lowercase(h.as_str());
    chars_of(l.as_str())
}

/// Whether `t`'s lower-cased title and description contain `q_lower`.
pub fn query_matches(t: &Task, q_lower: &Vec<char>) -> (res: bool)
    ensures
        res == spec_contains(lowercased(haystack(t@)), q_lower@),
{
    let hay = lower_haystack(t);
    contains_chars(&hay, q_lower)
}

/// Whether the string `tag` is one of `tags`.
pub(crate) fn has_tag(tags: &Vec<String>, tag: &String) -> (res: bool)
    ensures
        res == crate::models::strings_view(tags@).contains(tag@),
{
    let ghost tv = crate::models::strings_view(tags@);
    let mut i: usize = 0;
    while i < tags.len()
        invariant
            i <= tags.len(),
            tv == crate::models::strings_view(tags@),
            forall|j: int| 0 <= j < i ==> tv[j] != tag@,
        decreases tags.len() - i,
    {
        if crate::text::str_eq(tags[i].as_str(), tag.as_str()) {
            proof {
                assert(tv[i as int] == tag@);
            }
            return true;
        }
        i += 1;
    }
    false
}

impl TaskFilter {
    pub fn matches(&self, t: &Task, today: Date, week_days: i64) -> (res: bool)
        ensures
            res == accepts(self@, t@, today, week_days as int),
    {
        if !self.include_done && t.is_done() {
            // Allow done tasks through only if user explicitly filters status=done.
            if self.status != Some(Status::Done) {
                return false;
            }
        }
        if let Some(pid) = self.project_id {
            if t.project_id != Some(pid) {
                return false;
            }
        }
        if let Some(tag) = &self.tag {
            if !has_tag(&t.tags, tag) {
                return false;
            }
        }
        if let Some(st) = self.status {
            if t.status != st {
                return false;
            }
        }
        if let Some(pr) = self.priority {
            if t.priority != pr {
                return false;
            }
        }
        match self.due_category {
            Some(DueCategory::Overdue) => {
                if !t.is_overdue(today) {
                    return false;
                }
            },
            Some(DueCategory::Today) => {
                if !t.due_today(today) {
                    return false;
                }
            },
            Some(DueCategory::ThisWeek) => {
                if !t.due_within_days(today, week_days) {
                    return false;
                }
            },
            None => {},
        }
        if let Some(q) = &self.query {
            let ql = chars_of(to_lowercase(q.as_str()).as_str());
            if !query_matches(t, &ql) {
                return false;
            }
        }
        true
    }
}

/// Apply a filter to a flat task list.
pub fn apply(tasks: &[Task], filter: &TaskFilter, today: Date, week_days: i64) -> (res: Vec<Task>)
    ensures
        task_models(res@) == task_models(tasks@).filter(
            accepted_by(filter@, today, week_days as int),
        ),
{
    let ghost ts = task_models(tasks@);
    let ghost p = accepted_by(filter@, today, week_days as int);
    let mut out: Vec<Task> = Vec::new();
    let mut i: usize = 0;
    proof {
        reveal(Seq::filter);
        assert(task_models(out@) =~= ts.take(0).filter(p));
    }
    while i < tasks.len()
        invariant
            i <= tasks.len(),
            ts == task_models(tasks@),
            p == accepted_by(filter@, today, week_days as int),
            task_models(out@) == ts.take(i as int).filter(p),
        decreases tasks.len() - i,
    {
        proof {
            assert(ts.take(i + 1) =~= ts.take(i as int).push(ts[i as int]));
            crate::tree::lemma_filter_push(ts.take(i as int), ts[i as int], p);
        }
        if filter.matches(&tasks[i], today, week_days) {
            let c = tasks[i].clone();
            out.push(c);
            proof {
                assert(task_models(out@) =~= ts.take(i as int).filter(p).push(ts[i as int]));
            }
        }
        i += 1;
    }
    proof {
        assert(ts.take(i as int) =~= ts);
    }
    out
}

/// The Today view holds exactly the tasks of the list that are not done
/// and are either in progress or due today or earlier: a task that is not
/// done, not in progress and has no due date on or before today (a waiting
/// task without one, say) is never in it.
pub proof fn law_today_view_members(tasks: Seq<TaskModel>, today: Date, res: Seq<TaskModel>)
    requires
        res == tasks.filter(today_test(today)),
    ensures
        forall|i: int|
            0 <= i < res.len() ==> {
                let t = #[trigger] res[i];
                &&& tasks.contains(t)
                &&& t.status != Status::Done
                &&& (t.status == Status::Doing || (t.due_date matches Some(d) && d@ <= today@))
            },
        forall|i: int|
            0 <= i < tasks.len() && (#[trigger] tasks[i]).status != Status::Done && (tasks[i].status
                == Status::Doing || (tasks[i].due_date matches Some(d) && d@ <= today@)) ==> res.contains(
                tasks[i],
            ),
{
    assert forall|i: int| 0 <= i < res.len() implies {
        let t = #[trigger] res[i];
        &&& tasks.contains(t)
        &&& t.status != Status::Done
        &&& (t.status == Status::Doing || (t.due_date matches Some(d) && d@ <= today@))
    } by {
        tasks.lemma_filter_pred(today_test(today), i);
        assert(res.contains(res[i]));
        tasks.lemma_filter_contains_rev(today_test(today), res[i]);
    }
    assert forall|i: int|
        0 <= i < tasks.len() && (#[trigger] tasks[i]).status != Status::Done && (tasks[i].status
            == Status::Doing || (tasks[i].due_date matches Some(d) && d@ <= today@)) implies res.contains(
            tasks[i],
        ) by {
        assert(today_test(today)(tasks[i]));
        tasks.lemma_filter_contains(today_test(today), i);
    }
}

/// Convenience: "today view" returns overdue + due-today + doing tasks.
pub fn today_view(tasks: &[Task], today: Date) -> (res: Vec<Task>)
    ensures
        task_models(res@) == task_models(tasks@).filter(today_test(today)),
{
    let ghost ts = task_models(tasks@);
    let ghost p = today_test(today);
    let mut out: Vec<Task> = Vec::new();
    let mut i: usize = 0;
    proof {
        reveal(Seq::filter);
        assert(task_models(out@) =~= ts.take(0).filter(p));
    }
    while i < tasks.len()
        invariant
            i <= tasks.len(),
            ts == task_models(tasks@),
            p == today_test(today),
            task_models(out@) == ts.take(i as int).filter(p),
        decreases tasks.len() - i,
    {
        proof {
            assert(ts.take(i + 1) =~= ts.take(i as int).push(ts[i as int]));
            crate::tree::lemma_filter_push(ts.take(i as int), ts[i as int], p);
        }
        let t = &tasks[i];
        if !t.is_done() && (t.is_overdue(today) || t.due_today(today) || t.status == Status::Doing) {
            let c = t.clone();
            out.push(c);
            proof {
                assert(task_models(out@) =~= ts.take(i as int).filter(p).push(ts[i as int]));
            }
        }
        i += 1;
    }
    proof {
        assert(ts.take(i as int) =~= ts);
    }
    out
}

/// The tasks of `ts` whose paired date in `ds` is `date`, in order.
pub open spec fn pick_on(ts: Seq<TaskModel>, ds: Seq<Option<Date>>, date: Date) -> Seq<TaskModel>
    decreases ts.len(),
{
    if ts.len() == 0 || ds.len() == 0 {
        Seq::empty()
    } else {
        let rest = pick_on(ts.drop_last(), ds.drop_last(), date);
        if ds.last() matches Some(d) && d@ == date@ {
            rest.push(ts.last())
        } else {
            rest
        }
    }
}

/// The tasks completed on `date`, given the local date of each task's
/// completion (`None` where it has none, or chrono cannot hold it).
pub fn completed_on_dates(tasks: &[Task], local_dates: &[Option<Date>], date: Date) -> (res: Vec<Task>)
    requires
        local_dates@.len() == tasks@.len(),
    ensures
        task_models(res@) == pick_on(task_models(tasks@), local_dates@, date),
{
    let ghost ts = task_models(tasks@);
    let mut out: Vec<Task> = Vec::new();
    let mut i: usize = 0;
    proof {
        assert(task_models(out@) =~= pick_on(ts.take(0), local_dates@.take(0), date));
    }
    while i < tasks.len()
        invariant
            i <= tasks.len(),
            local_dates@.len() == tasks@.len(),
            ts == task_models(tasks@),
            task_models(out@) == pick_on(ts.take(i as int), local_dates@.take(i as int), date),
        decreases tasks.len() - i,
    {
        proof {
            assert(ts.take(i + 1).drop_last() =~= ts.take(i as int));
            assert(local_dates@.take(i + 1).drop_last() =~= local_dates@.take(i as int));
        }
        let hit = match local_dates[i] {
            Some(d) => d.same(&date),
            None => false,
        };
        if hit {
            out.push(tasks[i].clone());
            proof {
                assert(task_models(out@) =~= pick_on(ts.take(i as int), local_dates@.take(i as int), date).push(ts[i as int]));
            }
        }
        i += 1;
    }
    proof {
        assert(ts.take(i as int) =~= ts);
        assert(local_dates@.take(i as int) =~= local_dates@);
    }
    out
}

/// Whether `d` is the local date of `t`'s completion: none without a
/// completion; for a completion whose UTC date is not chrono's first or last,
/// the date at the machine's offset from UTC then (under a day; which one is
/// not stated); none for the others.
pub open spec fn completion_date_ok(t: TaskModel, d: Option<Date>) -> bool {
    match t.completed_at {
        None => d is None,
        Some(c) => if local_in_range(c@.0) {
            d matches Some(x) && local_day_of(c@.0, x@)
        } else {
            d is None
        },
    }
}

/// Tasks completed on a given local date: those of `completed_on_dates` for
/// the local date of each completion.
pub fn completed_on(tasks: &[Task], date: Date) -> (res: Vec<Task>)
    ensures
        exists|ds: Seq<Option<Date>>|
            ds.len() == tasks@.len() && (forall|i: int|
                0 <= i < ds.len() ==> completion_date_ok(tasks@[i]@, #[trigger] ds[i]))
                && task_models(res@) == pick_on(task_models(tasks@), ds, date),
{
    let dates = completion_dates(tasks);
    completed_on_dates(tasks, dates.as_slice(), date)
}

/// The local date of each task's completion (see `completion_date_ok`).
pub(crate) fn completion_dates(tasks: &[Task]) -> (res: Vec<Option<Date>>)
    ensures
        res@.len() == tasks@.len(),
        forall|i: int| 0 <= i < res@.len() ==> completion_date_ok(tasks@[i]@, #[trigger] res@[i]),
{
    let mut dates: Vec<Option<Date>> = Vec::new();
    let mut i: usize = 0;
    while i < tasks.len()
        invariant
            i <= tasks.len(),
            dates@.len() == i,
            forall|j: int| 0 <= j < i ==> completion_date_ok(tasks@[j]@, #[trigger] dates@[j]),
        decreases tasks.len() - i,
    {
        let d = match tasks[i].completed_at {
            Some(c) => c.local_date(),
            None => None,
        };
        dates.push(d);
        i += 1;
    }
    dates
}

} // verus!
