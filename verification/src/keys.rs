//! What each key and each `:` command does to the application state.
//!
//! Every handler is stated as a relation between the state before (`a`),
//! the state after (`b`) and the result: the effect asked for, or the error.
use vstd::prelude::*;

use crate::app::{
    lemma_rows_unique, lemma_same_rows, lemma_shows_unique, opt_model, same_rows_source, App,
    EditField, Effect, EffectModel, Key, KeyInput, View, ViewModel,
};
use crate::calendar::{day_in_range, spec_parse_ymd, Date, Timestamp};
use crate::commands::{parse, parse_spec, Command, CommandModel, ExportScope, ScopeModel};
use crate::config::Config;
use crate::error::{AppError, AppResult};
use crate::export::{markdown_of, render_markdown};
use crate::filters::{has_tag, opt_text, today_test, today_view};
use crate::input::{EditTarget, Focus, Mode};
use crate::models::{strings_view, task_models, Priority, Project, Status, Task, TaskModel};
use crate::pomodoro::{decimal, push_decimal, Pomodoro};
use crate::text::{
    ascii_lower, chars_of, copy_str, push_char, push_str, spec_trim, str_eq, string_of_range,
    to_ascii_lowercase, trim,
};
use crate::tree::{
    built_from, flat_forest, grown_from, law_rows_fixed_by_tasks, law_toggle_keeps_cursor_on_a_row,
    row_models,
    FlatRow, FlatRowModel, TaskNode,
};
use std::collections::HashMap;
use vstd::view::View as _;

verus! {

// ---------------------------------------------------------------------
// Shapes of an outcome
// ---------------------------------------------------------------------

/// `b` is `a` with the status line showing `msg`.
pub open spec fn shows_status(a: App, b: App, msg: Seq<char>) -> bool {
    &&& b == (App { status_message: b.status_message, ..a })
    &&& b.status_message matches Some(m) && m@ == msg
}

/// Nothing changes and no outside work is asked for.
pub open spec fn no_op(a: App, b: App, res: AppResult<Effect>) -> bool {
    &&& b == a
    &&& res matches Ok(e) && e@ is Nothing
}

/// Only the status line changes, to `msg`.
pub open spec fn reports(a: App, b: App, res: AppResult<Effect>, msg: Seq<char>) -> bool {
    &&& shows_status(a, b, msg)
    &&& res matches Ok(e) && e@ is Nothing
}

/// The state stays; the task is to be written back as `task`, and `note`
/// shown once it is.
pub open spec fn asks_update(
    a: App,
    b: App,
    res: AppResult<Effect>,
    task: TaskModel,
    note: Option<Seq<char>>,
) -> bool {
    &&& b == a
    &&& res matches Ok(e) && e@ == (EffectModel::Update { task, note })
}

/// The state stays and the error is `InvalidInput(msg)`.
pub open spec fn rejects_input(a: App, b: App, res: AppResult<Effect>, msg: Seq<char>) -> bool {
    &&& b == a
    &&& res matches Err(AppError::InvalidInput(m)) && m@ == msg
}

/// The state stays and the error is `NotFound(msg)`.
pub open spec fn not_found(a: App, b: App, res: AppResult<Effect>, msg: Seq<char>) -> bool {
    &&& b == a
    &&& res matches Err(AppError::NotFound(m)) && m@ == msg
}

fn status_to(app: &mut App, msg: &str)
    ensures
        shows_status(*old(app), *final(app), msg@),
{
    app.status_message = Some(copy_str(msg));
}

// ---------------------------------------------------------------------
// Due dates
// ---------------------------------------------------------------------

/// What a typed due value means, as a day number: `Some(None)` clears the
/// date, `None` is a date that does not read. Blanks around the value are
/// ignored, and so is the ASCII case of the keywords.
pub open spec fn due_spec(s: Seq<char>, today: int) -> Option<Option<int>> {
    let t = spec_trim(s);
    let l = ascii_lower(t);
    if l == "none"@ || t.len() == 0 {
        Some(None)
    } else if l == "today"@ {
        Some(Some(today))
    } else if l == "tomorrow"@ {
        Some(Some(today + 1))
    } else {
        match spec_parse_ymd(t) {
            Some(d) => Some(Some(d)),
            None => None,
        }
    }
}

/// Whether a due value asks for tomorrow.
pub open spec fn asks_tomorrow(s: Seq<char>) -> bool {
    ascii_lower(spec_trim(s)) == "tomorrow"@
}

/// Whether the optional date `d` is the day number `n`.
pub open spec fn date_is(d: Option<Date>, n: Option<int>) -> bool {
    match (d, n) {
        (Some(x), Some(k)) => x@ == k,
        (None, None) => true,
        _ => false,
    }
}

/// Parse the user-typed due value into an optional date.
pub fn parse_due(s: &str, today: Date) -> (res: AppResult<Option<Date>>)
    requires
        asks_tomorrow(s@) ==> day_in_range(today@ + 1),
    ensures
        match res {
            Ok(d) => due_spec(s@, today@) matches Some(n) && date_is(d, n),
            Err(AppError::DateParse(_)) => due_spec(s@, today@) is None,
            Err(_) => false,
        },
{
    let t = trim(s);
    let l = to_ascii_lowercase(t.as_str());
    if str_eq(l.as_str(), "none") || t.as_str().is_empty() {
        return Ok(None);
    }
    if str_eq(l.as_str(), "today") {
        return Ok(Some(today));
    }
    if str_eq(l.as_str(), "tomorrow") {
        return match today.add_days(1) {
            Some(d) => Ok(Some(d)),
            None => {
                proof {
                    assert(false);
                }
                Ok(None)
            },
        };
    }
    match Date::parse_ymd(t.as_str()) {
        Ok(d) => Ok(Some(d)),
        Err(e) => Err(AppError::DateParse(e)),
    }
}

// ---------------------------------------------------------------------
// Commands on the selected task
// ---------------------------------------------------------------------

/// The test "is not `tag`".
pub open spec fn other_than(tag: Seq<char>) -> spec_fn(Seq<char>) -> bool {
    |x: Seq<char>| x != tag
}

/// `:addtag`: only a predefined tag, and only once.
pub open spec fn add_tag_outcome(
    a: App,
    sel: Option<TaskModel>,
    tag: Seq<char>,
    now: Timestamp,
    b: App,
    res: AppResult<Effect>,
) -> bool {
    match sel {
        None => reports(a, b, res, "no task selected"@),
        Some(t) => if !strings_view(a.config.tags.default@).contains(tag) {
            rejects_input(a, b, res, "tag '"@ + tag + "' not in predefined tags (config.toml)"@)
        } else if !t.tags.contains(tag) {
            asks_update(
                a,
                b,
                res,
                TaskModel { tags: t.tags.push(tag), updated_at: now, ..t },
                Some("tag added"@),
            )
        } else {
            reports(a, b, res, "tag already present"@)
        },
    }
}

/// `:rmtag`: drops every copy of the tag.
pub open spec fn remove_tag_outcome(
    a: App,
    sel: Option<TaskModel>,
    tag: Seq<char>,
    now: Timestamp,
    b: App,
    res: AppResult<Effect>,
) -> bool {
    match sel {
        None => reports(a, b, res, "no task selected"@),
        Some(t) => {
            let kept = t.tags.filter(other_than(tag));
            if kept.len() != t.tags.len() {
                asks_update(
                    a,
                    b,
                    res,
                    TaskModel { tags: kept, updated_at: now, ..t },
                    Some("tag removed"@),
                )
            } else {
                reports(a, b, res, "tag not present"@)
            }
        },
    }
}

/// `:due`.
pub open spec fn due_outcome(
    a: App,
    sel: Option<TaskModel>,
    s: Seq<char>,
    today: Date,
    now: Timestamp,
    b: App,
    res: AppResult<Effect>,
) -> bool {
    match sel {
        None => reports(a, b, res, "no task selected"@),
        Some(t) => match due_spec(s, today@) {
            None => b == a && res matches Err(AppError::DateParse(_)),
            Some(n) => exists|d: Option<Date>|
                date_is(d, n) && asks_update(
                    a,
                    b,
                    res,
                    TaskModel { due_date: d, updated_at: now, ..t },
                    Some("due updated"@),
                ),
        },
    }
}

/// `:pri`.
pub open spec fn priority_outcome(
    a: App,
    sel: Option<TaskModel>,
    s: Seq<char>,
    now: Timestamp,
    b: App,
    res: AppResult<Effect>,
) -> bool {
    match sel {
        None => no_op(a, b, res),
        Some(t) => match Priority::from_name(ascii_lower(s)) {
            None => rejects_input(a, b, res, "unknown priority: "@ + ascii_lower(s)),
            Some(p) => asks_update(
                a,
                b,
                res,
                TaskModel { priority: p, updated_at: now, ..t },
                Some("priority updated"@),
            ),
        },
    }
}

/// `:status`: a task that becomes done is completed now; any other status
/// has no completion.
pub open spec fn status_outcome(
    a: App,
    sel: Option<TaskModel>,
    s: Seq<char>,
    now: Timestamp,
    b: App,
    res: AppResult<Effect>,
) -> bool {
    match sel {
        None => no_op(a, b, res),
        Some(t) => match Status::from_name(ascii_lower(s)) {
            None => rejects_input(a, b, res, "unknown status: "@ + ascii_lower(s)),
            Some(st) => asks_update(
                a,
                b,
                res,
                TaskModel {
                    status: st,
                    completed_at: if st == Status::Done {
                        Some(now)
                    } else {
                        None
                    },
                    updated_at: now,
                    ..t
                },
                Some("status updated"@),
            ),
        },
    }
}

/// `:desc`.
pub open spec fn description_outcome(
    a: App,
    sel: Option<TaskModel>,
    s: Seq<char>,
    now: Timestamp,
    b: App,
    res: AppResult<Effect>,
) -> bool {
    match sel {
        None => no_op(a, b, res),
        Some(t) => asks_update(
            a,
            b,
            res,
            TaskModel { description: s, updated_at: now, ..t },
            Some("description updated"@),
        ),
    }
}

/// `:project`: "none" clears the project; any other name must be a project.
pub open spec fn project_outcome(
    a: App,
    sel: Option<TaskModel>,
    name: Seq<char>,
    now: Timestamp,
    b: App,
    res: AppResult<Effect>,
) -> bool {
    match sel {
        None => no_op(a, b, res),
        Some(t) => if name == "none"@ {
            asks_update(
                a,
                b,
                res,
                TaskModel { project_id: None, updated_at: now, ..t },
                Some("project updated"@),
            )
        } else {
            match crate::app::project_id_named(a.projects@, name) {
                None => not_found(a, b, res, "project "@ + name),
                Some(pid) => asks_update(
                    a,
                    b,
                    res,
                    TaskModel { project_id: Some(pid), updated_at: now, ..t },
                    Some("project updated"@),
                ),
            }
        },
    }
}

/// `:pomo`: a timer of the configured length on the selected task.
pub open spec fn pomo_outcome(a: App, sel: Option<TaskModel>, b: App, res: AppResult<Effect>) -> bool {
    match sel {
        None => reports(a, b, res, "no task selected"@),
        Some(t) => {
            &&& b == (App { pomodoro: b.pomodoro, status_message: b.status_message, ..a })
            &&& b.pomodoro matches Some(p) && p.task_id == t.id && p.duration_secs
                == a.config.pomodoro.minutes * 60
            &&& b.status_message matches Some(m) && m@ == "pomodoro started ("@ + decimal(
                a.config.pomodoro.minutes as nat,
            ) + " min) on '"@ + t.title + "'"@
            &&& res matches Ok(e) && e@ is Nothing
        },
    }
}

fn ask_update(t: Task, note: &str) -> (res: AppResult<Effect>)
    ensures
        res matches Ok(e) && e@ == (EffectModel::Update { task: t@, note: Some(note@) }),
{
    Ok(Effect::Update { task: t, note: Some(copy_str(note)) })
}

impl App {
    fn cmd_add_tag(&mut self, tag: String, today: Date, now: Timestamp) -> (res: AppResult<Effect>)
        ensures
            exists|sel: Option<TaskModel>|
                old(self).selected_is(today, sel) && add_tag_outcome(
                    *old(self),
                    sel,
                    tag@,
                    now,
                    *final(self),
                    res,
                ),
    {
        let sel = self.selected_task_at(today);
        let ghost sm = opt_model(sel);
        match sel {
            None => {
                status_to(self, "no task selected");
                Ok(Effect::Nothing)
            },
            Some(mut t) => {
                if !has_tag(&self.config.tags.default, &tag) {
                    let mut m = copy_str("tag '");
                    push_str(&mut m, tag.as_str());
                    push_str(&mut m, "' not in predefined tags (config.toml)");
                    return Err(AppError::InvalidInput(m));
                }
                if !has_tag(&t.tags, &tag) {
                    let ghost old_tags = t@.tags;
                    let ghost tv = tag@;
                    t.tags.push(tag);
                    t.updated_at = now;
                    proof {
                        assert(t@.tags =~= old_tags.push(tv));
                    }
                    ask_update(t, "tag added")
                } else {
                    status_to(self, "tag already present");
                    Ok(Effect::Nothing)
                }
            },
        }
    }

    fn cmd_remove_tag(&mut self, tag: String, today: Date, now: Timestamp) -> (res: AppResult<
        Effect,
    >)
        ensures
            exists|sel: Option<TaskModel>|
                old(self).selected_is(today, sel) && remove_tag_outcome(
                    *old(self),
                    sel,
                    tag@,
                    now,
                    *final(self),
                    res,
                ),
    {
        let sel = self.selected_task_at(today);
        match sel {
            None => {
                status_to(self, "no task selected");
                Ok(Effect::Nothing)
            },
            Some(mut t) => {
                let ghost tv = t@.tags;
                let ghost p = other_than(tag@);
                let mut kept: Vec<String> = Vec::new();
                let mut i: usize = 0;
                proof {
                    reveal(Seq::filter);
                    assert(strings_view(kept@) =~= tv.take(0).filter(p));
                }
                while i < t.tags.len()
                    invariant
                        i <= t.tags.len(),
                        tv == strings_view(t.tags@),
                        p == other_than(tag@),
                        strings_view(kept@) == tv.take(i as int).filter(p),
                    decreases t.tags.len() - i,
                {
                    proof {
                        assert(tv.take(i + 1) =~= tv.take(i as int).push(tv[i as int]));
                        crate::tree::lemma_filter_push(tv.take(i as int), tv[i as int], p);
                    }
                    if !str_eq(t.tags[i].as_str(), tag.as_str()) {
                        kept.push(copy_str(t.tags[i].as_str()));
                        proof {
                            assert(strings_view(kept@) =~= tv.take(i as int).filter(p).push(
                                tv[i as int],
                            ));
                        }
                    }
                    i += 1;
                }
                proof {
                    assert(tv.take(i as int) =~= tv);
                }
                if kept.len() != t.tags.len() {
                    t.tags = kept;
                    t.updated_at = now;
                    ask_update(t, "tag removed")
                } else {
                    status_to(self, "tag not present");
                    Ok(Effect::Nothing)
                }
            },
        }
    }

    fn cmd_due(&mut self, s: &str, today: Date, now: Timestamp) -> (res: AppResult<Effect>)
        requires
            asks_tomorrow(s@) ==> day_in_range(today@ + 1),
        ensures
            exists|sel: Option<TaskModel>|
                old(self).selected_is(today, sel) && due_outcome(
                    *old(self),
                    sel,
                    s@,
                    today,
                    now,
                    *final(self),
                    res,
                ),
    {
        let sel = self.selected_task_at(today);
        match sel {
            None => {
                status_to(self, "no task selected");
                Ok(Effect::Nothing)
            },
            Some(mut t) => {
                let new_due = match parse_due(s, today) {
                    Ok(d) => d,
                    Err(e) => {
                        return Err(e);
                    },
                };
                t.due_date = new_due;
                t.updated_at = now;
                ask_update(t, "due updated")
            },
        }
    }

    fn cmd_priority(&mut self, s: &str, today: Date, now: Timestamp) -> (res: AppResult<Effect>)
        ensures
            exists|sel: Option<TaskModel>|
                old(self).selected_is(today, sel) && priority_outcome(
                    *old(self),
                    sel,
                    s@,
                    now,
                    *final(self),
                    res,
                ),
    {
        let sel = self.selected_task_at(today);
        match sel {
            None => Ok(Effect::Nothing),
            Some(mut t) => match Priority::parse(s) {
                Ok(p) => {
                    t.priority = p;
                    t.updated_at = now;
                    ask_update(t, "priority updated")
                },
                Err(e) => Err(AppError::InvalidInput(e)),
            },
        }
    }

    fn cmd_status(&mut self, s: &str, today: Date, now: Timestamp) -> (res: AppResult<Effect>)
        ensures
            exists|sel: Option<TaskModel>|
                old(self).selected_is(today, sel) && status_outcome(
                    *old(self),
                    sel,
                    s@,
                    now,
                    *final(self),
                    res,
                ),
    {
        let sel = self.selected_task_at(today);
        match sel {
            None => Ok(Effect::Nothing),
            Some(mut t) => match Status::parse(s) {
                Ok(st) => {
                    t.status = st;
                    t.completed_at = if t.is_done() {
                        Some(now)
                    } else {
                        None
                    };
                    t.updated_at = now;
                    ask_update(t, "status updated")
                },
                Err(e) => Err(AppError::InvalidInput(e)),
            },
        }
    }

    fn cmd_description(&mut self, s: &str, today: Date, now: Timestamp) -> (res: AppResult<Effect>)
        ensures
            exists|sel: Option<TaskModel>|
                old(self).selected_is(today, sel) && description_outcome(
                    *old(self),
                    sel,
                    s@,
                    now,
                    *final(self),
                    res,
                ),
    {
        let sel = self.selected_task_at(today);
        match sel {
            None => Ok(Effect::Nothing),
            Some(mut t) => {
                t.description = copy_str(s);
                t.updated_at = now;
                ask_update(t, "description updated")
            },
        }
    }

    fn cmd_set_project(&mut self, name: &str, today: Date, now: Timestamp) -> (res: AppResult<
        Effect,
    >)
        ensures
            exists|sel: Option<TaskModel>|
                old(self).selected_is(today, sel) && project_outcome(
                    *old(self),
                    sel,
                    name@,
                    now,
                    *final(self),
                    res,
                ),
    {
        let sel = self.selected_task_at(today);
        match sel {
            None => Ok(Effect::Nothing),
            Some(mut t) => {
                if str_eq(name, "none") {
                    t.project_id = None;
                } else {
                    match crate::app::find_project_id(&self.projects, name) {
                        Some(pid) => {
                            t.project_id = Some(pid);
                        },
                        None => {
                            let mut m = copy_str("project ");
                            push_str(&mut m, name);
                            return Err(AppError::NotFound(m));
                        },
                    }
                }
                t.updated_at = now;
                ask_update(t, "project updated")
            },
        }
    }

    fn cmd_pomo(&mut self, today: Date) -> (res: AppResult<Effect>)
        requires
            old(self).wf(),
        ensures
            exists|sel: Option<TaskModel>|
                old(self).selected_is(today, sel) && pomo_outcome(*old(self), sel, *final(self), res),
    {
        let sel = self.selected_task_at(today);
        match sel {
            None => {
                status_to(self, "no task selected");
                Ok(Effect::Nothing)
            },
            Some(t) => {
                let minutes: u64 = self.config.pomodoro.minutes;
                self.pomodoro = Some(Pomodoro::new(t.id, minutes));
                let mut m = copy_str("pomodoro started (");
                push_decimal(&mut m, minutes);
                push_str(&mut m, " min) on '");
                push_str(&mut m, t.title.as_str());
                push_str(&mut m, "'");
                self.status_message = Some(m);
                Ok(Effect::Nothing)
            },
        }
    }
}

// ---------------------------------------------------------------------
// Export
// ---------------------------------------------------------------------

/// The test "in project `pid` and not done".
pub open spec fn open_in_project(pid: i64) -> spec_fn(TaskModel) -> bool {
    |t: TaskModel| t.project_id == Some(pid) && !t.done()
}

/// The tasks of rows, in order.
pub open spec fn row_tasks(rows: Seq<FlatRowModel>) -> Seq<TaskModel> {
    rows.map_values(|r: FlatRowModel| r.task)
}

/// Whether `title` and `list` are the heading and the tasks that an export
/// of `scope` takes from state `a` on `today`.
pub open spec fn export_source(
    a: App,
    scope: ScopeModel,
    today: Date,
    title: Seq<char>,
    list: Seq<TaskModel>,
) -> bool {
    let ts = task_models(a.tasks@);
    match scope {
        ScopeModel::Today => title == "Today"@ && list == ts.filter(today_test(today)),
        ScopeModel::All => title == "All"@ && list == ts,
        ScopeModel::Visible => title == crate::app::View::title(a.view@, a.projects@) && exists|
            rows: Seq<FlatRowModel>,
        | a.rows_ok(today, rows) && list == row_tasks(rows),
        ScopeModel::Project(name) => match crate::app::project_id_named(a.projects@, name) {
            Some(pid) => title == "Project: "@ + name && list == ts.filter(open_in_project(pid)),
            None => false,
        },
    }
}

/// `:export`: the Markdown of the scope's tasks, to be written to `file`
/// (or to the default export file). A project that does not exist is not found.
pub open spec fn export_outcome(
    a: App,
    scope: ScopeModel,
    file: Option<Seq<char>>,
    today: Date,
    b: App,
    res: AppResult<Effect>,
) -> bool {
    let missing = match scope {
        ScopeModel::Project(name) => crate::app::project_id_named(a.projects@, name) is None,
        _ => false,
    };
    if missing {
        not_found(a, b, res, "project "@ + scope->Project_0)
    } else {
        &&& b == a
        &&& exists|title: Seq<char>, list: Seq<TaskModel>, nodes: Seq<TaskNode>|
            export_source(a, scope, today, title, list) && built_from(nodes, list) && (res matches Ok(
                e,
            ) && e@ == (EffectModel::Export { path: file, markdown: markdown_of(title, nodes) }))
    }
}

/// The tasks of the rows, in order.
fn tasks_of_rows(rows: &Vec<FlatRow>) -> (res: Vec<Task>)
    ensures
        task_models(res@) == row_tasks(row_models(rows@)),
{
    let ghost rm = row_tasks(row_models(rows@));
    let mut out: Vec<Task> = Vec::new();
    let mut i: usize = 0;
    while i < rows.len()
        invariant
            i <= rows.len(),
            rm == row_tasks(row_models(rows@)),
            task_models(out@) == rm.take(i as int),
        decreases rows.len() - i,
    {
        let c = rows[i].task.clone();
        let ghost before = out@;
        out.push(c);
        proof {
            assert(task_models(out@) =~= task_models(before).push(c@));
            assert(c@ == rm[i as int]);
            assert(task_models(out@) =~= rm.take(i + 1));
        }
        i += 1;
    }
    proof {
        assert(rm.take(i as int) =~= rm);
    }
    out
}

/// The open tasks of project `pid`, in order.
fn open_tasks_of(tasks: &Vec<Task>, pid: i64) -> (res: Vec<Task>)
    ensures
        task_models(res@) == task_models(tasks@).filter(open_in_project(pid)),
{
    let ghost ts = task_models(tasks@);
    let ghost p = open_in_project(pid);
    let mut out: Vec<Task> = Vec::new();
    let mut i: usize = 0;
    proof {
        reveal(Seq::filter);
        assert(task_models(out@) =~= ts.take(0).filter(p));
    }
    while i < tasks.len()
        invariant
            i <= tasks.len(),
            ts == task_models(tasks@),
            p == open_in_project(pid),
            task_models(out@) == ts.take(i as int).filter(p),
        decreases tasks.len() - i,
    {
        proof {
            assert(ts.take(i + 1) =~= ts.take(i as int).push(ts[i as int]));
            crate::tree::lemma_filter_push(ts.take(i as int), ts[i as int], p);
        }
        if tasks[i].project_id == Some(pid) && !tasks[i].is_done() {
            out.push(tasks[i].clone());
            proof {
                assert(task_models(out@) =~= ts.take(i as int).filter(p).push(ts[i as int]));
            }
        }
        i += 1;
    }
    proof {
        assert(ts.take(i as int) =~= ts);
    }
    out
}

fn clone_tasks(tasks: &Vec<Task>) -> (res: Vec<Task>)
    ensures
        task_models(res@) == task_models(tasks@),
{
    let mut out: Vec<Task> = Vec::new();
    let mut i: usize = 0;
    while i < tasks.len()
        invariant
            i <= tasks.len(),
            task_models(out@) == task_models(tasks@).take(i as int),
        decreases tasks.len() - i,
    {
        let c = tasks[i].clone();
        let ghost before = out@;
        out.push(c);
        proof {
            assert(task_models(out@) =~= task_models(before).push(c@));
            assert(task_models(out@) =~= task_models(tasks@).take(i + 1));
        }
        i += 1;
    }
    proof {
        assert(task_models(tasks@).take(i as int) =~= task_models(tasks@));
    }
    out
}

impl App {
    fn cmd_export(&mut self, scope: ExportScope, file: Option<String>, today: Date) -> (res: AppResult<
        Effect,
    >)
        ensures
            export_outcome(*old(self), scope@, opt_text(file), today, *final(self), res),
    {
        let ghost a = *self;
        let (title, tasks) = match scope {
            ExportScope::Today => (copy_str("Today"), today_view(self.tasks.as_slice(), today)),
            ExportScope::All => (copy_str("All"), clone_tasks(&self.tasks)),
            ExportScope::Visible => {
                let rows = self.visible_rows_at(today);
                let label = self.view.label(&self.projects);
                (label, tasks_of_rows(&rows))
            },
            ExportScope::Project(name) => match crate::app::find_project_id(
                &self.projects,
                name.as_str(),
            ) {
                Some(pid) => {
                    let mut t = copy_str("Project: ");
                    push_str(&mut t, name.as_str());
                    (t, open_tasks_of(&self.tasks, pid))
                },
                None => {
                    let mut m = copy_str("project ");
                    push_str(&mut m, name.as_str());
                    return Err(AppError::NotFound(m));
                },
            },
        };
        proof {
            assert(export_source(a, scope@, today, title@, task_models(tasks@)));
        }
        let md = render_markdown(title.as_str(), tasks.as_slice());
        Ok(Effect::Export { path: file, markdown: md })
    }
}

// ---------------------------------------------------------------------
// Executing a command
// ---------------------------------------------------------------------

/// The handler succeeded and asks for nothing.
pub open spec fn ok_nothing(res: AppResult<Effect>) -> bool {
    res matches Ok(e) && e@ is Nothing
}

/// `b` is `a` with the search and the view reset to All, the status line
/// showing `msg` and the cursor kept on the rows then shown.
pub open spec fn filters_cleared(a: App, today: Date, b: App) -> bool {
    let mid = App { search_query: None, view: crate::app::View::All, status_message: b.status_message, ..a };
    &&& b.status_message matches Some(m) && m@ == "filters cleared"@
    &&& mid.normalized(today, b)
}

/// What running `cmd` needs: for `:pomo` a pomodoro length that fits in
/// seconds, for `:due tomorrow` a next day the calendar holds.
pub open spec fn command_needs(a: App, cmd: CommandModel, today: Date) -> bool {
    match cmd {
        CommandModel::Pomo => a.wf(),
        CommandModel::Due(s) => asks_tomorrow(s) ==> day_in_range(today@ + 1),
        _ => true,
    }
}

/// Whether key `k` is Enter in the command bar (which runs the line).
pub open spec fn runs_line(a: App, k: KeyInput) -> bool {
    a.mode == Mode::Command && k.key == Key::Enter && !(k.ctrl && k.key == Key::Char('c'))
}

/// Whether key `k` runs `:pomo`.
pub open spec fn key_runs_pomo(a: App, k: KeyInput) -> bool {
    runs_line(a, k) && parse_spec(a.input_buffer@) == Ok::<CommandModel, Seq<char>>(CommandModel::Pomo)
}

/// Whether key `k` runs `:due` with "tomorrow".
pub open spec fn key_runs_tomorrow(a: App, k: KeyInput) -> bool {
    runs_line(a, k) && (parse_spec(a.input_buffer@) matches Ok(CommandModel::Due(s)) && asks_tomorrow(s))
}

/// What key `k` needs: those of the command it runs, if any.
pub open spec fn key_needs(a: App, k: KeyInput, today: Date) -> bool {
    runs_line(a, k) ==> match parse_spec(a.input_buffer@) {
        Ok(cmd) => command_needs(a, cmd, today),
        Err(_) => true,
    }
}

/// What executing the command `cmd` does to state `a` on `today` at `now`.
pub open spec fn command_outcome(
    a: App,
    cmd: CommandModel,
    today: Date,
    now: Timestamp,
    b: App,
    res: AppResult<Effect>,
) -> bool {
    match cmd {
        CommandModel::Quit => b == (App { should_quit: true, ..a }) && ok_nothing(res),
        CommandModel::Write => reports(a, b, res, "ok (changes already saved)"@),
        CommandModel::Help => b == (App { mode: Mode::Help, ..a }) && ok_nothing(res),
        CommandModel::ClearFilters => filters_cleared(a, today, b) && ok_nothing(res),
        CommandModel::Export { scope, file } => export_outcome(a, scope, file, today, b, res),
        CommandModel::AddTag(tag) => exists|sel: Option<TaskModel>|
            a.selected_is(today, sel) && add_tag_outcome(a, sel, tag, now, b, res),
        CommandModel::RemoveTag(tag) => exists|sel: Option<TaskModel>|
            a.selected_is(today, sel) && remove_tag_outcome(a, sel, tag, now, b, res),
        CommandModel::Due(s) => exists|sel: Option<TaskModel>|
            a.selected_is(today, sel) && due_outcome(a, sel, s, today, now, b, res),
        CommandModel::Priority(s) => exists|sel: Option<TaskModel>|
            a.selected_is(today, sel) && priority_outcome(a, sel, s, now, b, res),
        CommandModel::Status(s) => exists|sel: Option<TaskModel>|
            a.selected_is(today, sel) && status_outcome(a, sel, s, now, b, res),
        CommandModel::Description(s) => exists|sel: Option<TaskModel>|
            a.selected_is(today, sel) && description_outcome(a, sel, s, now, b, res),
        CommandModel::SetTaskProject(name) => exists|sel: Option<TaskModel>|
            a.selected_is(today, sel) && project_outcome(a, sel, name, now, b, res),
        CommandModel::NewProject(name) => b == a && (res matches Ok(e) && e@
            == (EffectModel::CreateProject { name })),
        CommandModel::Pomo => exists|sel: Option<TaskModel>|
            a.selected_is(today, sel) && pomo_outcome(a, sel, b, res),
        CommandModel::PomoStop => shows_status(App { pomodoro: None, ..a }, b, "pomodoro stopped"@)
            && ok_nothing(res),
    }
}

impl App {
    /// Runs a parsed command.
    pub fn execute_command(&mut self, cmd: Command, today: Date, now: Timestamp) -> (res: AppResult<
        Effect,
    >)
        requires
            command_needs(*old(self), cmd@, today),
        ensures
            command_outcome(*old(self), cmd@, today, now, *final(self), res),
    {
        match cmd {
            Command::Quit => {
                self.should_quit = true;
                Ok(Effect::Nothing)
            },
            Command::Write => {
                status_to(self, "ok (changes already saved)");
                Ok(Effect::Nothing)
            },
            Command::Help => {
                self.mode = Mode::Help;
                Ok(Effect::Nothing)
            },
            Command::ClearFilters => {
                self.search_query = None;
                self.view = crate::app::View::All;
                status_to(self, "filters cleared");
                self.normalize_cursor(today);
                Ok(Effect::Nothing)
            },
            Command::Export { scope, file } => self.cmd_export(scope, file, today),
            Command::AddTag(tag) => self.cmd_add_tag(tag, today, now),
            Command::RemoveTag(tag) => self.cmd_remove_tag(tag, today, now),
            Command::Due(s) => self.cmd_due(s.as_str(), today, now),
            Command::Priority(s) => self.cmd_priority(s.as_str(), today, now),
            Command::Status(s) => self.cmd_status(s.as_str(), today, now),
            Command::Description(s) => self.cmd_description(s.as_str(), today, now),
            Command::SetTaskProject(name) => self.cmd_set_project(name.as_str(), today, now),
            Command::NewProject(name) => Ok(Effect::CreateProject { name }),
            Command::Pomo => self.cmd_pomo(today),
            Command::PomoStop => {
                self.pomodoro = None;
                status_to(self, "pomodoro stopped");
                Ok(Effect::Nothing)
            },
        }
    }
}

// ---------------------------------------------------------------------
// Normal mode
// ---------------------------------------------------------------------

impl App {
    /// Whether the current view hides done tasks (so the user knows where a
    /// task went when it disappears).
    pub open spec fn hides_done(self) -> bool {
        match self.view@ {
            ViewModel::All | ViewModel::Project(_) | ViewModel::Tag(_) => !self.config.ui.show_done_in_all,
            ViewModel::Today => true,
            ViewModel::Done | ViewModel::Log => false,
        }
    }
}

/// The status line after a task `t` got its new status.
pub open spec fn status_change_text(t: TaskModel, became_done: bool, hides_done: bool) -> Seq<char> {
    if became_done && hides_done {
        "'"@ + t.title + "' → done (hidden here; see Done view, or set [ui] show_done_in_all = true)"@
    } else {
        "'"@ + t.title + "' → "@ + t.status.name()
    }
}

/// Space: a done task goes back to todo; any other becomes done, completed now.
pub open spec fn toggle_outcome(
    a: App,
    sel: Option<TaskModel>,
    now: Timestamp,
    b: App,
    res: AppResult<Effect>,
) -> bool {
    match sel {
        None => reports(a, b, res, "no task selected"@),
        Some(t) => {
            let t2 = if t.done() {
                TaskModel { status: Status::Todo, completed_at: None, updated_at: now, ..t }
            } else {
                TaskModel { status: Status::Done, completed_at: Some(now), updated_at: now, ..t }
            };
            asks_update(a, b, res, t2, Some(status_change_text(t2, !t.done(), a.hides_done())))
        },
    }
}

/// `s`: the next status in the cycle; done tasks are completed now.
pub open spec fn cycle_status_outcome(
    a: App,
    sel: Option<TaskModel>,
    now: Timestamp,
    b: App,
    res: AppResult<Effect>,
) -> bool {
    match sel {
        None => no_op(a, b, res),
        Some(t) => {
            let st = t.status.successor();
            let t2 = TaskModel {
                status: st,
                completed_at: if st == Status::Done {
                    Some(now)
                } else {
                    None
                },
                updated_at: now,
                ..t
            };
            asks_update(
                a,
                b,
                res,
                t2,
                Some(status_change_text(t2, st == Status::Done && !t.done(), a.hides_done())),
            )
        },
    }
}

/// `p`: the next priority in the cycle, with no status message.
pub open spec fn cycle_priority_outcome(
    a: App,
    sel: Option<TaskModel>,
    now: Timestamp,
    b: App,
    res: AppResult<Effect>,
) -> bool {
    match sel {
        None => no_op(a, b, res),
        Some(t) => asks_update(
            a,
            b,
            res,
            TaskModel { priority: t.priority.successor(), updated_at: now, ..t },
            None,
        ),
    }
}

/// `dd`: the selected task is to be deleted.
pub open spec fn delete_outcome(a: App, sel: Option<TaskModel>, b: App, res: AppResult<Effect>) -> bool {
    match sel {
        None => reports(a, b, res, "no task selected"@),
        Some(t) => b == a && (res matches Ok(e) && e@ == (EffectModel::Delete { id: t.id })),
    }
}

/// Insert mode opened on `target` with `text` in the buffer.
pub open spec fn opens_insert(a: App, b: App, target: EditTarget, text: Seq<char>) -> bool {
    &&& b == (App {
        mode: Mode::Insert,
        edit_target: Some(target),
        input_buffer: b.input_buffer,
        ..a
    })
    &&& b.input_buffer@ == text
}

/// `o`, `i` and `D`: insert mode on the selected task, with the text
/// `field` gives for it.
pub open spec fn begin_edit_outcome(
    a: App,
    sel: Option<TaskModel>,
    which: EditKind,
    b: App,
) -> bool {
    match sel {
        None => shows_status(a, b, "no task selected"@),
        Some(t) => match which {
            EditKind::Subtask => opens_insert(a, b, EditTarget::NewSubtask { parent_id: t.id }, Seq::empty()),
            EditKind::Title => opens_insert(a, b, EditTarget::EditTitle { task_id: t.id }, t.title),
            EditKind::Description => opens_insert(
                a,
                b,
                EditTarget::EditDescription { task_id: t.id },
                t.description,
            ),
        },
    }
}

/// Which edit a key opens on the selected task.
pub enum EditKind {
    Subtask,
    Title,
    Description,
}

/// Clears the buffer and opens `mode`.
pub open spec fn opens_bar(a: App, b: App, mode: Mode) -> bool {
    &&& b == (App { mode, input_buffer: b.input_buffer, ..a })
    &&& b.input_buffer@ == Seq::<char>::empty()
}

/// What a key does in Normal mode once the pending prefixes are handled.
pub open spec fn single_key_outcome(
    a: App,
    key: Key,
    today: Date,
    now: Timestamp,
    b: App,
    res: AppResult<Effect>,
) -> bool {
    match key {
        Key::Char('q') => b == (App { should_quit: true, ..a }) && ok_nothing(res),
        Key::Char('?') => b == (App { mode: Mode::Help, ..a }) && ok_nothing(res),
        Key::Char(':') => opens_bar(a, b, Mode::Command) && ok_nothing(res),
        Key::Char('/') => opens_bar(a, b, Mode::Search) && ok_nothing(res),
        Key::Tab => b == (App { focus: a.focus.following(), ..a }) && ok_nothing(res),
        Key::Char('j') | Key::Down => a.moved_down(today, b) && ok_nothing(res),
        Key::Char('k') | Key::Up => a.moved_up(b) && ok_nothing(res),
        Key::Char('h') | Key::Left => a.moved_left(today, b) && ok_nothing(res),
        Key::Char('l') | Key::Right => a.moved_right(today, b) && ok_nothing(res),
        Key::Char('g') => b == (App { pending_g: true, ..a }) && ok_nothing(res),
        Key::Char('G') => a.went_bottom(today, b) && ok_nothing(res),
        Key::Char('a') => opens_insert(a, b, EditTarget::NewTask, Seq::empty()) && ok_nothing(res),
        Key::Char('o') => (exists|sel: Option<TaskModel>|
            a.selected_is(today, sel) && begin_edit_outcome(a, sel, EditKind::Subtask, b))
            && ok_nothing(res),
        Key::Char('i') => (exists|sel: Option<TaskModel>|
            a.selected_is(today, sel) && begin_edit_outcome(a, sel, EditKind::Title, b)) && ok_nothing(
            res,
        ),
        Key::Char('D') => (exists|sel: Option<TaskModel>|
            a.selected_is(today, sel) && begin_edit_outcome(a, sel, EditKind::Description, b))
            && ok_nothing(res),
        Key::Char('d') => b == (App { pending_d: true, ..a }) && ok_nothing(res),
        Key::Char(' ') => exists|sel: Option<TaskModel>|
            a.selected_is(today, sel) && toggle_outcome(a, sel, now, b, res),
        Key::Char('s') => exists|sel: Option<TaskModel>|
            a.selected_is(today, sel) && cycle_status_outcome(a, sel, now, b, res),
        Key::Char('p') => exists|sel: Option<TaskModel>|
            a.selected_is(today, sel) && cycle_priority_outcome(a, sel, now, b, res),
        Key::Char('c') => {
            let mid = App { search_query: None, status_message: b.status_message, ..a };
            &&& b.status_message matches Some(m) && m@ == "filters cleared"@
            &&& mid.normalized(today, b)
            &&& ok_nothing(res)
        },
        Key::Enter => a.entered(today, b) && ok_nothing(res),
        _ => b == a && ok_nothing(res),
    }
}

/// What a key does in Normal mode: `gg` and `dd` first, then single keys.
pub open spec fn normal_outcome(
    a: App,
    key: Key,
    today: Date,
    now: Timestamp,
    b: App,
    res: AppResult<Effect>,
) -> bool {
    if a.pending_g && key == Key::Char('g') {
        App { pending_g: false, ..a }.went_top(b) && ok_nothing(res)
    } else {
        let a2 = App { pending_g: false, pending_d: false, ..a };
        if a.pending_d && key == Key::Char('d') {
            exists|sel: Option<TaskModel>| a2.selected_is(today, sel) && delete_outcome(a2, sel, b, res)
        } else {
            single_key_outcome(a2, key, today, now, b, res)
        }
    }
}

/// The note shown after a status change.
fn status_change_note(t: &Task, became_done: bool, hides_done: bool) -> (res: String)
    ensures
        res@ == status_change_text(t@, became_done, hides_done),
{
    let mut m = copy_str("'");
    push_str(&mut m, t.title.as_str());
    if became_done && hides_done {
        push_str(
            &mut m,
            "' → done (hidden here; see Done view, or set [ui] show_done_in_all = true)",
        );
    } else {
        push_str(&mut m, "' → ");
        push_str(&mut m, t.status.as_str());
    }
    m
}

impl App {
    fn current_view_hides_done(&self) -> (res: bool)
        ensures
            res == self.hides_done(),
    {
        match self.view {
            View::All | View::Project(_) | View::Tag(_) => !self.config.ui.show_done_in_all,
            View::Today => true,
            View::Done | View::Log => false,
        }
    }

    fn toggle_complete(&mut self, today: Date, now: Timestamp) -> (res: AppResult<Effect>)
        ensures
            exists|sel: Option<TaskModel>|
                old(self).selected_is(today, sel) && toggle_outcome(*old(self), sel, now, *final(self), res),
    {
        let sel = self.selected_task_at(today);
        match sel {
            None => {
                status_to(self, "no task selected");
                Ok(Effect::Nothing)
            },
            Some(mut t) => {
                let became_done = !t.is_done();
                if t.is_done() {
                    t.status = Status::Todo;
                    t.completed_at = None;
                } else {
                    t.status = Status::Done;
                    t.completed_at = Some(now);
                }
                t.updated_at = now;
                let note = status_change_note(&t, became_done, self.current_view_hides_done());
                Ok(Effect::Update { task: t, note: Some(note) })
            },
        }
    }

    fn cycle_status(&mut self, today: Date, now: Timestamp) -> (res: AppResult<Effect>)
        ensures
            exists|sel: Option<TaskModel>|
                old(self).selected_is(today, sel) && cycle_status_outcome(
                    *old(self),
                    sel,
                    now,
                    *final(self),
                    res,
                ),
    {
        let sel = self.selected_task_at(today);
        match sel {
            None => Ok(Effect::Nothing),
            Some(mut t) => {
                let was_done = t.is_done();
                t.status = t.status.cycle_next();
                let became_done = t.is_done() && !was_done;
                t.completed_at = if t.is_done() {
                    Some(now)
                } else {
                    None
                };
                t.updated_at = now;
                let note = status_change_note(&t, became_done, self.current_view_hides_done());
                Ok(Effect::Update { task: t, note: Some(note) })
            },
        }
    }

    fn cycle_priority(&mut self, today: Date, now: Timestamp) -> (res: AppResult<Effect>)
        ensures
            exists|sel: Option<TaskModel>|
                old(self).selected_is(today, sel) && cycle_priority_outcome(
                    *old(self),
                    sel,
                    now,
                    *final(self),
                    res,
                ),
    {
        let sel = self.selected_task_at(today);
        match sel {
            None => Ok(Effect::Nothing),
            Some(mut t) => {
                t.priority = t.priority.cycle_next();
                t.updated_at = now;
                Ok(Effect::Update { task: t, note: None })
            },
        }
    }

    fn delete_selected(&mut self, today: Date) -> (res: AppResult<Effect>)
        ensures
            exists|sel: Option<TaskModel>|
                old(self).selected_is(today, sel) && delete_outcome(*old(self), sel, *final(self), res),
    {
        let sel = self.selected_task_at(today);
        match sel {
            None => {
                status_to(self, "no task selected");
                Ok(Effect::Nothing)
            },
            Some(t) => Ok(Effect::Delete { id: t.id }),
        }
    }

    fn open_insert(&mut self, target: EditTarget, text: String)
        ensures
            opens_insert(*old(self), *final(self), target, text@),
    {
        self.mode = Mode::Insert;
        self.edit_target = Some(target);
        self.input_buffer = text;
    }

    fn begin_edit(&mut self, which: EditKind, today: Date)
        ensures
            exists|sel: Option<TaskModel>|
                old(self).selected_is(today, sel) && begin_edit_outcome(*old(self), sel, which, *final(self)),
    {
        let sel = self.selected_task_at(today);
        match sel {
            None => status_to(self, "no task selected"),
            Some(t) => match which {
                EditKind::Subtask => self.open_insert(
                    EditTarget::NewSubtask { parent_id: t.id },
                    String::new(),
                ),
                EditKind::Title => self.open_insert(EditTarget::EditTitle { task_id: t.id }, t.title),
                EditKind::Description => self.open_insert(
                    EditTarget::EditDescription { task_id: t.id },
                    t.description,
                ),
            },
        }
    }

    fn open_bar(&mut self, mode: Mode)
        ensures
            opens_bar(*old(self), *final(self), mode),
    {
        self.mode = mode;
        self.input_buffer = String::new();
    }

    fn on_key_normal(&mut self, key: Key, today: Date, now: Timestamp) -> (res: AppResult<Effect>)
        ensures
            normal_outcome(*old(self), key, today, now, *final(self), res),
    {
        if self.pending_g {
            self.pending_g = false;
            if key == Key::Char('g') {
                self.cursor_top();
                return Ok(Effect::Nothing);
            }
        }
        if self.pending_d {
            self.pending_d = false;
            if key == Key::Char('d') {
                return self.delete_selected(today);
            }
        }
        self.pending_g = false;
        self.pending_d = false;
        match key {
            Key::Char('q') => self.should_quit = true,
            Key::Char('?') => self.mode = Mode::Help,
            Key::Char(':') => self.open_bar(Mode::Command),
            Key::Char('/') => self.open_bar(Mode::Search),
            Key::Tab => self.focus = self.focus.next(),
            Key::Char('j') | Key::Down => self.move_down(today),
            Key::Char('k') | Key::Up => self.move_up(),
            Key::Char('h') | Key::Left => self.move_left(today),
            Key::Char('l') | Key::Right => self.move_right(today),
            Key::Char('g') => self.pending_g = true,
            Key::Char('G') => self.cursor_bottom(today),
            Key::Char('a') => self.open_insert(EditTarget::NewTask, String::new()),
            Key::Char('o') => self.begin_edit(EditKind::Subtask, today),
            Key::Char('i') => self.begin_edit(EditKind::Title, today),
            Key::Char('D') => self.begin_edit(EditKind::Description, today),
            Key::Char('d') => self.pending_d = true,
            Key::Char(' ') => return self.toggle_complete(today, now),
            Key::Char('s') => return self.cycle_status(today, now),
            Key::Char('p') => return self.cycle_priority(today, now),
            Key::Char('c') => {
                self.search_query = None;
                status_to(self, "filters cleared");
                self.normalize_cursor(today);
            },
            Key::Enter => self.on_enter(today),
            _ => {},
        }
        Ok(Effect::Nothing)
    }
}

// ---------------------------------------------------------------------
// Text bars, insert mode and the help overlay
// ---------------------------------------------------------------------

/// The text without its last character, if any.
pub open spec fn popped(s: Seq<char>) -> Seq<char> {
    if s.len() > 0 {
        s.drop_last()
    } else {
        s
    }
}

/// Drops the last character of `s`, if any.
fn pop_char(s: &mut String)
    ensures
        final(s)@ == popped(old(s)@),
{
    let v = chars_of(s.as_str());
    if v.len() > 0 {
        *s = string_of_range(&v, 0, v.len() - 1);
        proof {
            assert(v@.subrange(0, v@.len() - 1) =~= v@.drop_last());
        }
    }
}

/// Only the input buffer changes, to `text`.
pub open spec fn buffer_becomes(a: App, b: App, text: Seq<char>) -> bool {
    &&& b == (App { input_buffer: b.input_buffer, ..a })
    &&& b.input_buffer@ == text
}

/// The state after a line was taken from the buffer: Normal mode, empty
/// buffer.
pub open spec fn line_taken(a: App, b: App) -> App {
    App { mode: Mode::Normal, input_buffer: b.input_buffer, ..a }
}

/// Enter in a bar: the line is taken (giving state `mid`), then run as a
/// command or set as the search.
pub open spec fn enter_outcome(
    a: App,
    mid: App,
    is_command: bool,
    today: Date,
    now: Timestamp,
    b: App,
    res: AppResult<Effect>,
) -> bool {
    let line = a.input_buffer@;
    &&& mid == line_taken(a, mid)
    &&& mid.input_buffer@ == Seq::<char>::empty()
    &&& if is_command {
        match parse_spec(line) {
            Ok(cmd) => command_outcome(mid, cmd, today, now, b, res),
            Err(msg) => reports(mid, b, res, "err: "@ + ("invalid command: "@ + msg)),
        }
    } else {
        let q = spec_trim(line);
        let mid2 = App { search_query: b.search_query, ..mid };
        &&& if q.len() == 0 {
            b.search_query is None
        } else {
            b.search_query matches Some(x) && x@ == q
        }
        &&& mid2.normalized(today, b)
        &&& ok_nothing(res)
    }
}

/// The `:` bar (`is_command`) and the `/` bar.
pub open spec fn bar_outcome(
    a: App,
    key: Key,
    is_command: bool,
    today: Date,
    now: Timestamp,
    b: App,
    res: AppResult<Effect>,
) -> bool {
    match key {
        Key::Esc => opens_bar(a, b, Mode::Normal) && ok_nothing(res),
        Key::Backspace => buffer_becomes(a, b, popped(a.input_buffer@)) && ok_nothing(res),
        Key::Char(c) => buffer_becomes(a, b, a.input_buffer@.push(c)) && ok_nothing(res),
        Key::Enter => exists|mid: App| enter_outcome(a, mid, is_command, today, now, b, res),
        _ => no_op(a, b, res),
    }
}

/// A new top-level task titled `title`, created at `now` in view `v`: it
/// joins the project of a project view and carries the tag of a tag view.
pub open spec fn new_task_in_view(title: Seq<char>, now: Timestamp, v: ViewModel) -> TaskModel {
    let t = Task::fresh(title, now);
    match v {
        ViewModel::Project(pid) => TaskModel { project_id: Some(pid), ..t },
        ViewModel::Tag(tag) => TaskModel { tags: seq![tag], ..t },
        _ => t,
    }
}

/// Enter in insert mode: the trimmed buffer goes where the edit target says.
pub open spec fn commit_outcome(a: App, now: Timestamp, b: App, res: AppResult<Effect>) -> bool {
    let text = spec_trim(a.input_buffer@);
    let mid = App { edit_target: None, ..line_taken(a, b) };
    &&& b.input_buffer@ == Seq::<char>::empty()
    &&& match a.edit_target {
        None => b == mid && ok_nothing(res),
        Some(EditTarget::NewTask) => if text.len() == 0 {
            reports(mid, b, res, "cancelled (empty title)"@)
        } else {
            b == mid && (res matches Ok(e) && e@ == (EffectModel::Insert {
                task: new_task_in_view(text, now, a.view@),
                expand: None,
                message: "task added"@,
            }))
        },
        Some(EditTarget::NewSubtask { parent_id }) => if text.len() == 0 {
            reports(mid, b, res, "cancelled (empty title)"@)
        } else {
            b == mid && (res matches Ok(e) && e@ == (EffectModel::FetchParent { parent_id, title: text }))
        },
        Some(EditTarget::EditTitle { task_id }) => if text.len() == 0 {
            reports(mid, b, res, "title unchanged (empty input)"@)
        } else {
            b == mid && (res matches Ok(e) && e@ == (EffectModel::FetchForEdit {
                task_id,
                field: EditField::Title,
                text,
            }))
        },
        Some(EditTarget::EditDescription { task_id }) => b == mid && (res matches Ok(e) && e@
            == (EffectModel::FetchForEdit { task_id, field: EditField::Description, text })),
    }
}

/// Insert mode.
pub open spec fn insert_outcome(
    a: App,
    key: Key,
    now: Timestamp,
    b: App,
    res: AppResult<Effect>,
) -> bool {
    match key {
        Key::Esc => {
            &&& b == (App {
                mode: Mode::Normal,
                input_buffer: b.input_buffer,
                edit_target: None,
                ..a
            })
            &&& b.input_buffer@ == Seq::<char>::empty()
            &&& ok_nothing(res)
        },
        Key::Backspace => buffer_becomes(a, b, popped(a.input_buffer@)) && ok_nothing(res),
        Key::Char(c) => buffer_becomes(a, b, a.input_buffer@.push(c)) && ok_nothing(res),
        Key::Enter => commit_outcome(a, now, b, res),
        _ => no_op(a, b, res),
    }
}

/// The help overlay closes on Esc, `q` and `?`.
pub open spec fn help_outcome(a: App, key: Key, b: App, res: AppResult<Effect>) -> bool {
    if key == Key::Esc || key == Key::Char('q') || key == Key::Char('?') {
        b == (App { mode: Mode::Normal, ..a }) && ok_nothing(res)
    } else {
        no_op(a, b, res)
    }
}

/// What a key press does to state `a` on `today` at `now`.
pub open spec fn key_outcome(
    a: App,
    k: KeyInput,
    today: Date,
    now: Timestamp,
    b: App,
    res: AppResult<Effect>,
) -> bool {
    if k.ctrl && k.key == Key::Char('c') {
        b == (App { should_quit: true, ..a }) && ok_nothing(res)
    } else {
        match a.mode {
            Mode::Normal => normal_outcome(a, k.key, today, now, b, res),
            Mode::Insert => insert_outcome(a, k.key, now, b, res),
            Mode::Command => bar_outcome(a, k.key, true, today, now, b, res),
            Mode::Search => bar_outcome(a, k.key, false, today, now, b, res),
            Mode::Help => help_outcome(a, k.key, b, res),
        }
    }
}

impl App {
    fn take_line(&mut self) -> (res: String)
        ensures
            res@ == old(self).input_buffer@,
            *final(self) == line_taken(*old(self), *final(self)),
            final(self).input_buffer@ == Seq::<char>::empty(),
    {
        let mut line = String::new();
        core::mem::swap(&mut line, &mut self.input_buffer);
        self.mode = Mode::Normal;
        line
    }

    fn on_key_help(&mut self, key: Key) -> (res: AppResult<Effect>)
        ensures
            help_outcome(*old(self), key, *final(self), res),
    {
        if key == Key::Esc || key == Key::Char('q') || key == Key::Char('?') {
            self.mode = Mode::Normal;
        }
        Ok(Effect::Nothing)
    }

    fn on_key_bar(&mut self, key: Key, is_command: bool, today: Date, now: Timestamp) -> (res: AppResult<
        Effect,
    >)
        requires
            is_command && key == Key::Enter ==> match parse_spec(old(self).input_buffer@) {
                Ok(cmd) => command_needs(*old(self), cmd, today),
                Err(_) => true,
            },
        ensures
            bar_outcome(*old(self), key, is_command, today, now, *final(self), res),
    {
        match key {
            Key::Esc => {
                self.open_bar(Mode::Normal);
                Ok(Effect::Nothing)
            },
            Key::Backspace => {
                pop_char(&mut self.input_buffer);
                Ok(Effect::Nothing)
            },
            Key::Char(c) => {
                push_char(&mut self.input_buffer, c);
                Ok(Effect::Nothing)
            },
            Key::Enter => {
                let line = self.take_line();
                let ghost mid = *self;
                if is_command {
                    match parse(line.as_str()) {
                        Ok(cmd) => {
                            let r = self.execute_command(cmd, today, now);
                            proof {
                                assert(mid == line_taken(*old(self), mid));
                                assert(enter_outcome(*old(self), mid, is_command, today, now, *self, r));
                            }
                            r
                        },
                        Err(e) => {
                            let mut m = copy_str("err: ");
                            push_str(&mut m, e.message().as_str());
                            self.status_message = Some(m);
                            let r = Ok(Effect::Nothing);
                            proof {
                                assert(mid == line_taken(*old(self), mid));
                                assert(enter_outcome(*old(self), mid, is_command, today, now, *self, r));
                            }
                            r
                        },
                    }
                } else {
                    let q = trim(line.as_str());
                    if q.as_str().is_empty() {
                        self.search_query = None;
                    } else {
                        self.search_query = Some(q);
                    }
                    let ghost mid2 = *self;
                    self.normalize_cursor(today);
                    let r = Ok(Effect::Nothing);
                    proof {
                        assert(mid == line_taken(*old(self), mid));
                        assert(mid2 == (App { search_query: self.search_query, ..mid }));
                        assert(enter_outcome(*old(self), mid, is_command, today, now, *self, r));
                    }
                    r
                }
            },
            _ => Ok(Effect::Nothing),
        }
    }

    fn commit_insert(&mut self, now: Timestamp) -> (res: AppResult<Effect>)
        ensures
            commit_outcome(*old(self), now, *final(self), res),
    {
        let line = self.take_line();
        let text = trim(line.as_str());
        let target = self.edit_target;
        self.edit_target = None;
        match target {
            None => Ok(Effect::Nothing),
            Some(EditTarget::NewTask) => {
                if text.as_str().is_empty() {
                    status_to(self, "cancelled (empty title)");
                    return Ok(Effect::Nothing);
                }
                let mut t = Task::new_at(text.as_str(), now);
                match &self.view {
                    View::Project(pid) => {
                        t.project_id = Some(*pid);
                    },
                    View::Tag(tag) => {
                        let ghost before = t@.tags;
                        t.tags.push(copy_str(tag.as_str()));
                        proof {
                            assert(t@.tags =~= seq![tag@]);
                        }
                    },
                    _ => {},
                }
                Ok(Effect::Insert { task: t, expand: None, message: copy_str("task added") })
            },
            Some(EditTarget::NewSubtask { parent_id }) => {
                if text.as_str().is_empty() {
                    status_to(self, "cancelled (empty title)");
                    return Ok(Effect::Nothing);
                }
                Ok(Effect::FetchParent { parent_id, title: text })
            },
            Some(EditTarget::EditTitle { task_id }) => {
                if text.as_str().is_empty() {
                    status_to(self, "title unchanged (empty input)");
                    return Ok(Effect::Nothing);
                }
                Ok(Effect::FetchForEdit { task_id, field: EditField::Title, text })
            },
            Some(EditTarget::EditDescription { task_id }) => Ok(
                Effect::FetchForEdit { task_id, field: EditField::Description, text },
            ),
        }
    }

    fn on_key_insert(&mut self, key: Key, now: Timestamp) -> (res: AppResult<Effect>)
        ensures
            insert_outcome(*old(self), key, now, *final(self), res),
    {
        match key {
            Key::Esc => {
                self.open_bar(Mode::Normal);
                self.edit_target = None;
                Ok(Effect::Nothing)
            },
            Key::Backspace => {
                pop_char(&mut self.input_buffer);
                Ok(Effect::Nothing)
            },
            Key::Char(c) => {
                push_char(&mut self.input_buffer, c);
                Ok(Effect::Nothing)
            },
            Key::Enter => self.commit_insert(now),
            _ => Ok(Effect::Nothing),
        }
    }

    /// Handles a key press on `today` at `now`. Outside work comes back as
    /// an `Effect`; an error is for the caller to show as "err: ...".
    pub fn on_key_at(&mut self, key: KeyInput, today: Date, now: Timestamp) -> (res: AppResult<Effect>)
        requires
            key_needs(*old(self), key, today),
        ensures
            key_outcome(*old(self), key, today, now, *final(self), res),
    {
        if key.ctrl && key.key == Key::Char('c') {
            self.should_quit = true;
            return Ok(Effect::Nothing);
        }
        match self.mode {
            Mode::Normal => self.on_key_normal(key.key, today, now),
            Mode::Insert => self.on_key_insert(key.key, now),
            Mode::Command => self.on_key_bar(key.key, true, today, now),
            Mode::Search => self.on_key_bar(key.key, false, today, now),
            Mode::Help => self.on_key_help(key.key),
        }
    }
}

// ---------------------------------------------------------------------
// Outcomes of outside work
// ---------------------------------------------------------------------

/// An integer in decimal, with a leading '-' when negative.
pub open spec fn int_text(n: int) -> Seq<char> {
    if n < 0 {
        "-"@ + decimal((-n) as nat)
    } else {
        decimal(n as nat)
    }
}

/// Appends `n` in decimal.
fn push_int(out: &mut String, n: i64)
    ensures
        final(out)@ == old(out)@ + int_text(n as int),
{
    if n < 0 {
        let ghost before = out@;
        push_char(out, '-');
        let m: u64 = ((-(n + 1)) as u64) + 1;
        push_decimal(out, m);
        proof {
            reveal_strlit("-");
            assert(m == -n);
            assert(out@ =~= before + ("-"@ + decimal((-n) as nat)));
        }
    } else {
        push_decimal(out, n as u64);
    }
}

/// The first row showing the task `id`, if any.
pub open spec fn first_row_of(rows: Seq<FlatRowModel>, id: i64) -> Option<int>
    decreases rows.len(),
{
    if rows.len() == 0 {
        None
    } else if rows[0].task.id == id {
        Some(0)
    } else {
        match first_row_of(rows.drop_first(), id) {
            Some(k) => Some(k + 1),
            None => None,
        }
    }
}

impl App {
    /// `b` is this state with the cursor on the first row showing task
    /// `id` on `today`, when there is one.
    pub open spec fn cursor_on(self, id: i64, today: Date, b: App) -> bool {
        exists|rows: Seq<FlatRowModel>|
            self.rows_ok(today, rows) && b == (App {
                task_cursor: match first_row_of(rows, id) {
                    Some(k) => k as usize,
                    None => self.task_cursor,
                },
                ..self
            })
    }

    /// `b` is this state with the reloaded `tasks` in place and the cursor
    /// kept on the rows then shown.
    pub open spec fn reloaded(self, tasks: Vec<Task>, today: Date, b: App) -> bool {
        App { tasks, ..self }.normalized(today, b)
    }

    /// `b` is this state after the task `id` was inserted: `expand` (the
    /// parent) expanded, the reloaded `tasks` in place, the cursor on the new
    /// task and `msg` on the status line.
    pub open spec fn inserted(
        self,
        id: i64,
        tasks: Vec<Task>,
        expand: Option<i64>,
        msg: Seq<char>,
        today: Date,
        b: App,
    ) -> bool {
        exists|m1: App, m2: App, m3: App|
            {
                &&& m1 == (App { expanded: m1.expanded, ..self })
                &&& m1.expanded@ == match expand {
                    Some(p) => self.expanded@.insert(p, true),
                    None => self.expanded@,
                }
                &&& m1.reloaded(tasks, today, m2)
                &&& m2.cursor_on(id, today, m3)
                &&& shows_status(m3, b, msg)
            }
    }

    fn move_cursor_to_task(&mut self, id: i64, today: Date)
        ensures
            old(self).cursor_on(id, today, *final(self)),
    {
        let rows = self.visible_rows_at(today);
        let ghost rm = row_models(rows@);
        let mut k: usize = 0;
        proof {
            assert(rm.skip(0) =~= rm);
        }
        while k < rows.len() && rows[k].task.id != id
            invariant
                k <= rows.len(),
                rm == row_models(rows@),
                first_row_of(rm.skip(k as int), id) matches Some(r) ==> first_row_of(rm, id) == Some(
                    r + k,
                ),
                first_row_of(rm.skip(k as int), id) is None ==> first_row_of(rm, id) is None,
            decreases rows.len() - k,
        {
            proof {
                assert(rm.skip(k as int)[0] == rm[k as int]);
                assert(rm.skip(k as int).drop_first() =~= rm.skip(k + 1));
            }
            k += 1;
        }
        proof {
            if k < rows.len() {
                assert(rm.skip(k as int)[0] == rm[k as int]);
            } else {
                assert(rm.skip(k as int) =~= Seq::<FlatRowModel>::empty());
            }
        }
        if k < rows.len() {
            self.task_cursor = k;
        }
    }

    fn reload(&mut self, tasks: Vec<Task>, today: Date)
        ensures
            old(self).reloaded(tasks, today, *final(self)),
    {
        self.tasks = tasks;
        self.normalize_cursor(today);
    }

    /// After an `Insert` effect: the new task's id and the reloaded tasks.
    pub fn finish_insert(
        &mut self,
        id: i64,
        tasks: Vec<Task>,
        expand: Option<i64>,
        message: &str,
        today: Date,
    )
        ensures
            old(self).inserted(id, tasks, expand, message@, today, *final(self)),
    {
        let ghost a = *self;
        if let Some(p) = expand {
            self.expanded.insert(p, true);
        }
        let ghost m1 = *self;
        self.reload(tasks, today);
        let ghost m2 = *self;
        self.move_cursor_to_task(id, today);
        let ghost m3 = *self;
        status_to(self, message);
        proof {
            assert(m1 == (App { expanded: m1.expanded, ..a }));
        }
    }

    /// After an `Update` effect: the reloaded tasks, and the note if any.
    pub fn finish_update(&mut self, tasks: Vec<Task>, note: Option<String>, today: Date)
        ensures
            match note {
                Some(m) => exists|mid: App|
                    old(self).reloaded(tasks, today, mid) && shows_status(mid, *final(self), m@),
                None => old(self).reloaded(tasks, today, *final(self)),
            },
    {
        self.reload(tasks, today);
        if let Some(m) = note {
            self.status_message = Some(m);
        }
    }

    /// After a `Delete` effect: the reloaded tasks.
    pub fn finish_delete(&mut self, tasks: Vec<Task>, today: Date)
        ensures
            exists|mid: App|
                old(self).reloaded(tasks, today, mid) && shows_status(mid, *final(self), "task deleted"@),
    {
        self.reload(tasks, today);
        status_to(self, "task deleted");
    }

    /// After a `CreateProject` effect: the reloaded projects.
    pub fn finish_new_project(&mut self, projects: Vec<Project>, name: &str)
        ensures
            shows_status(
                App { projects, ..*old(self) },
                *final(self),
                "project '"@ + name@ + "' created"@,
            ),
    {
        self.projects = projects;
        let mut m = copy_str("project '");
        push_str(&mut m, name);
        push_str(&mut m, "' created");
        self.status_message = Some(m);
    }

    /// After an `Export` effect: the path written.
    pub fn finish_export(&mut self, path: &str)
        ensures
            shows_status(*old(self), *final(self), "exported to "@ + path@),
    {
        let mut m = copy_str("exported to ");
        push_str(&mut m, path);
        self.status_message = Some(m);
    }

    /// After a `FetchParent` effect: the parent as read. A parent that is
    /// gone is not found; otherwise the subtask joins its project.
    pub fn on_parent_fetched(parent_id: i64, title: &str, parent: Option<Task>, now: Timestamp) -> (res:
        AppResult<Effect>)
        ensures
            match parent {
                None => res matches Err(AppError::NotFound(m)) && m@ == "parent "@ + int_text(
                    parent_id as int,
                ),
                Some(p) => res matches Ok(e) && e@ == (EffectModel::Insert {
                    task: TaskModel {
                        parent_id: Some(parent_id),
                        project_id: p.project_id,
                        ..Task::fresh(title@, now)
                    },
                    expand: Some(parent_id),
                    message: "subtask added"@,
                }),
            },
    {
        match parent {
            None => {
                let mut m = copy_str("parent ");
                push_int(&mut m, parent_id);
                Err(AppError::NotFound(m))
            },
            Some(p) => {
                let mut t = Task::new_at(title, now);
                t.parent_id = Some(parent_id);
                t.project_id = p.project_id;
                Ok(Effect::Insert { task: t, expand: Some(parent_id), message: copy_str("subtask added") })
            },
        }
    }

    /// After a `FetchForEdit` effect: the task as read. A task that is gone
    /// asks for nothing.
    pub fn on_edit_fetched(field: EditField, text: String, task: Option<Task>, now: Timestamp) -> (res:
        Effect)
        ensures
            match task {
                None => res@ is Nothing,
                Some(t) => res@ == (EffectModel::Update {
                    task: match field {
                        EditField::Title => TaskModel { title: text@, updated_at: now, ..t@ },
                        EditField::Description => TaskModel {
                            description: text@,
                            updated_at: now,
                            ..t@
                        },
                    },
                    note: Some(
                        match field {
                            EditField::Title => "title updated"@,
                            EditField::Description => "description updated"@,
                        },
                    ),
                }),
            },
    {
        match task {
            None => Effect::Nothing,
            Some(mut t) => {
                t.updated_at = now;
                match field {
                    EditField::Title => {
                        t.title = text;
                        Effect::Update { task: t, note: Some(copy_str("title updated")) }
                    },
                    EditField::Description => {
                        t.description = text;
                        Effect::Update { task: t, note: Some(copy_str("description updated")) }
                    },
                }
            },
        }
    }
}

impl App {
    /// A fresh state over the loaded `tasks` and `projects`: Normal mode,
    /// focus on the tasks, the All view, nothing expanded or typed, the
    /// cursor on the first row shown on `today`.
    pub fn new(config: Config, tasks: Vec<Task>, projects: Vec<Project>, today: Date) -> (res: App)
        ensures
            exists|a: App|
                {
                    &&& a == (App {
                        config,
                        tasks,
                        projects,
                        mode: Mode::Normal,
                        focus: Focus::Tasks,
                        view: View::All,
                        expanded: a.expanded,
                        task_cursor: 0,
                        sidebar_cursor: 0,
                        input_buffer: a.input_buffer,
                        edit_target: None,
                        search_query: None,
                        status_message: None,
                        pomodoro: None,
                        pending_g: false,
                        pending_d: false,
                        should_quit: false,
                    })
                    &&& a.expanded@ == Map::<i64, bool>::empty()
                    &&& a.input_buffer@ == Seq::<char>::empty()
                    &&& a.normalized(today, res)
                },
    {
        let mut app = App {
            config,
            tasks,
            projects,
            mode: Mode::Normal,
            focus: Focus::Tasks,
            view: View::All,
            expanded: HashMap::new(),
            task_cursor: 0,
            sidebar_cursor: 0,
            input_buffer: String::new(),
            edit_target: None,
            search_query: None,
            status_message: None,
            pomodoro: None,
            pending_g: false,
            pending_d: false,
            should_quit: false,
        };
        app.normalize_cursor(today);
        app
    }

    /// Whether this key runs `:pomo` (Enter on such a command line).
    pub fn key_runs_pomodoro(&self, key: KeyInput) -> (res: bool)
        ensures
            res == key_runs_pomo(*self, key),
    {
        if self.mode == Mode::Command && key.key == Key::Enter && !(key.ctrl && key.key == Key::Char('c')) {
            match parse(self.input_buffer.as_str()) {
                Ok(Command::Pomo) => true,
                _ => false,
            }
        } else {
            false
        }
    }

    /// Whether this key runs `:due` with "tomorrow".
    fn key_runs_due_tomorrow(&self, key: KeyInput) -> (res: bool)
        ensures
            res == key_runs_tomorrow(*self, key),
    {
        if self.mode == Mode::Command && key.key == Key::Enter && !(key.ctrl && key.key == Key::Char('c')) {
            match parse(self.input_buffer.as_str()) {
                Ok(Command::Due(s)) => {
                    let l = to_ascii_lowercase(trim(s.as_str()).as_str());
                    str_eq(l.as_str(), "tomorrow")
                },
                _ => false,
            }
        } else {
            false
        }
    }

    /// Handles a key press now, on today's local date. On the last date
    /// the calendar holds, where "tomorrow" has no date, a key that runs
    /// `:due tomorrow` is refused with an `Other` error and nothing changes.
    pub fn on_key(&mut self, key: KeyInput) -> (res: AppResult<Effect>)
        requires
            key_runs_pomo(*old(self), key) ==> old(self).wf(),
        ensures
            (exists|today: Date, now: Timestamp| key_outcome(*old(self), key, today, now, *final(self), res))
                || (key_runs_tomorrow(*old(self), key) && *final(self) == *old(self) && res matches Err(
                AppError::Other(_),
            )),
    {
        let today = Date::local_today();
        let now = Timestamp::now();
        if today.add_days(1).is_none() && self.key_runs_due_tomorrow(key) {
            return Err(AppError::Other(copy_str("today's date is past the supported calendar")));
        }
        self.on_key_at(key, today, now)
    }
}

// ---------------------------------------------------------------------
// Laws of key handling
// ---------------------------------------------------------------------

/// Ctrl-c quits from any mode, and changes nothing else.
pub proof fn law_ctrl_c_quits(
    a: App,
    key: KeyInput,
    today: Date,
    now: Timestamp,
    b: App,
    res: AppResult<Effect>,
)
    requires
        key.ctrl,
        key.key == Key::Char('c'),
        key_outcome(a, key, today, now, b, res),
    ensures
        b == (App { should_quit: true, ..a }),
        res matches Ok(e) && e@ is Nothing,
{
}

/// Esc leaves Insert, Command, Search and Help mode for Normal mode.
pub proof fn law_escape_returns_to_normal(
    a: App,
    key: KeyInput,
    today: Date,
    now: Timestamp,
    b: App,
    res: AppResult<Effect>,
)
    requires
        a.mode != Mode::Normal,
        key.key == Key::Esc,
        key_outcome(a, key, today, now, b, res),
    ensures
        b.mode == Mode::Normal,
        res matches Ok(e) && e@ is Nothing,
{
}

/// In Normal mode Tab moves the focus to the next pane
/// (sidebar → tasks → details → sidebar).
pub proof fn law_tab_cycles_focus(
    a: App,
    key: KeyInput,
    today: Date,
    now: Timestamp,
    b: App,
    res: AppResult<Effect>,
)
    requires
        a.mode == Mode::Normal,
        key.key == Key::Tab,
        key_outcome(a, key, today, now, b, res),
    ensures
        b.focus == a.focus.following(),
{
}

/// `:addtag` only ever adds a tag that the configuration predefines: when
/// it asks for an update, the tag is predefined, was not on the task, and is
/// appended to the task's tags.
pub proof fn law_added_tags_are_predefined(
    a: App,
    sel: Option<TaskModel>,
    tag: Seq<char>,
    now: Timestamp,
    b: App,
    res: AppResult<Effect>,
)
    requires
        add_tag_outcome(a, sel, tag, now, b, res),
        res matches Ok(e) && e@ is Update,
    ensures
        strings_view(a.config.tags.default@).contains(tag),
        sel matches Some(t) && !t.tags.contains(tag) && (res matches Ok(e) && e@ matches EffectModel::Update {
            task,
            ..
        } && task.tags == t.tags.push(tag)),
{
}

/// Moving the cursor onto the rows keeps it on a row: after it, the cursor
/// is below the number of rows shown, or 0 when none are.
pub proof fn law_normalized_cursor_on_a_row(a: App, today: Date, b: App)
    requires
        a.normalized(today, b),
    ensures
        exists|rows: Seq<FlatRowModel>|
            a.rows_ok(today, rows) && if rows.len() == 0 {
                b.task_cursor == 0
            } else {
                b.task_cursor < rows.len()
            },
{
    let rows = choose|rows: Seq<FlatRowModel>|
        a.rows_ok(today, rows) && b == (App {
            task_cursor: crate::app::clamp_cursor(a.task_cursor as int, rows.len() as int) as usize,
            ..a
        });
    assert(a.rows_ok(today, rows));
}

proof fn lemma_cursor_kept(a: App, b: App, today: Date)
    requires
        a.cursor_on_a_row(today),
        same_rows_source(a, b),
        b.task_cursor == a.task_cursor,
    ensures
        b.cursor_on_a_row(today),
{
    lemma_same_rows(a, b, today);
}

proof fn lemma_normalized_on_a_row(mid: App, today: Date, b: App)
    requires
        mid.normalized(today, b),
    ensures
        b.cursor_on_a_row(today),
{
    let w = choose|rows: Seq<FlatRowModel>|
        mid.rows_ok(today, rows) && b == (App {
            task_cursor: crate::app::clamp_cursor(mid.task_cursor as int, rows.len() as int) as usize,
            ..mid
        });
    lemma_same_rows(mid, b, today);
    assert forall|rows: Seq<FlatRowModel>| b.rows_ok(today, rows) implies (if rows.len() == 0 {
        b.task_cursor == 0
    } else {
        b.task_cursor < rows.len()
    }) by {
        assert(mid.rows_ok(today, rows));
        lemma_rows_unique(mid, today, rows, w);
    }
}

proof fn lemma_toggle_on_a_row(a: App, today: Date, w: Seq<FlatRowModel>, b: App, v: bool)
    requires
        a.rows_ok(today, w),
        a.task_cursor < w.len(),
        w[a.task_cursor as int].has_children,
        b == (App { expanded: b.expanded, ..a }),
        b.expanded@ == a.expanded@.insert(w[a.task_cursor as int].task.id, v),
    ensures
        b.cursor_on_a_row(today),
{
    let c = a.task_cursor as int;
    let (lw, nw) = choose|l: Seq<TaskModel>, n: Seq<TaskNode>|
        a.shows(today, l) && grown_from(n, l, a.sorts_by_id()) && w == flat_forest(n, 0, a.expanded@);
    assert forall|rows: Seq<FlatRowModel>| b.rows_ok(today, rows) implies (if rows.len() == 0 {
        b.task_cursor == 0
    } else {
        b.task_cursor < rows.len()
    }) by {
        let (l, n) = choose|l: Seq<TaskModel>, n: Seq<TaskNode>|
            b.shows(today, l) && grown_from(n, l, b.sorts_by_id()) && rows == flat_forest(n, 0, b.expanded@);
        assert(a.shows(today, l));
        lemma_shows_unique(a, today, l, lw);
        law_rows_fixed_by_tasks(n, nw, l, a.sorts_by_id(), a.expanded@);
        law_toggle_keeps_cursor_on_a_row(n, l, a.sorts_by_id(), a.expanded@, c, v);
    }
}

proof fn lemma_down_on_a_row(a: App, today: Date, b: App)
    requires
        a.moved_down(today, b),
        a.cursor_on_a_row(today),
    ensures
        b.cursor_on_a_row(today),
{
    if a.focus == Focus::Tasks {
        let w = choose|rows: Seq<FlatRowModel>|
            a.rows_ok(today, rows) && b == (App {
                task_cursor: if a.task_cursor + 1 < rows.len() {
                    (a.task_cursor + 1) as usize
                } else {
                    a.task_cursor
                },
                ..a
            });
        lemma_same_rows(a, b, today);
        assert forall|rows: Seq<FlatRowModel>| b.rows_ok(today, rows) implies (if rows.len() == 0 {
            b.task_cursor == 0
        } else {
            b.task_cursor < rows.len()
        }) by {
            assert(a.rows_ok(today, rows));
            lemma_rows_unique(a, today, rows, w);
        }
    } else {
        lemma_cursor_kept(a, b, today);
    }
}

proof fn lemma_up_on_a_row(a: App, today: Date, b: App)
    requires
        a.moved_up(b),
        a.cursor_on_a_row(today),
    ensures
        b.cursor_on_a_row(today),
{
    lemma_same_rows(a, b, today);
}

proof fn lemma_bottom_on_a_row(a: App, today: Date, b: App)
    requires
        a.went_bottom(today, b),
        a.cursor_on_a_row(today),
    ensures
        b.cursor_on_a_row(today),
{
    if a.focus == Focus::Tasks {
        let w = choose|rows: Seq<FlatRowModel>|
            a.rows_ok(today, rows) && b == (if rows.len() > 0 {
                App { task_cursor: (rows.len() - 1) as usize, ..a }
            } else {
                a
            });
        lemma_same_rows(a, b, today);
        assert forall|rows: Seq<FlatRowModel>| b.rows_ok(today, rows) implies (if rows.len() == 0 {
            b.task_cursor == 0
        } else {
            b.task_cursor < rows.len()
        }) by {
            assert(a.rows_ok(today, rows));
            lemma_rows_unique(a, today, rows, w);
        }
    } else {
        lemma_cursor_kept(a, b, today);
    }
}

proof fn lemma_left_on_a_row(a: App, today: Date, b: App)
    requires
        a.moved_left(today, b),
        a.cursor_on_a_row(today),
    ensures
        b.cursor_on_a_row(today),
{
    if a.focus == Focus::Tasks {
        let w = choose|rows: Seq<FlatRowModel>|
            a.rows_ok(today, rows) && if a.task_cursor < rows.len()
                && rows[a.task_cursor as int].has_children
                && rows[a.task_cursor as int].expanded {
                &&& b == (App { expanded: b.expanded, ..a })
                &&& b.expanded@ == a.expanded@.insert(rows[a.task_cursor as int].task.id, false)
            } else {
                b == (App { focus: Focus::Sidebar, ..a })
            };
        if a.task_cursor < w.len() && w[a.task_cursor as int].has_children
            && w[a.task_cursor as int].expanded {
            lemma_toggle_on_a_row(a, today, w, b, false);
        } else {
            lemma_cursor_kept(a, b, today);
        }
    } else {
        lemma_cursor_kept(a, b, today);
    }
}

proof fn lemma_right_on_a_row(a: App, today: Date, b: App)
    requires
        a.moved_right(today, b),
        a.cursor_on_a_row(today),
    ensures
        b.cursor_on_a_row(today),
{
    if a.focus == Focus::Tasks {
        let w = choose|rows: Seq<FlatRowModel>|
            a.rows_ok(today, rows) && if a.task_cursor < rows.len()
                && rows[a.task_cursor as int].has_children
                && !rows[a.task_cursor as int].expanded {
                &&& b == (App { expanded: b.expanded, ..a })
                &&& b.expanded@ == a.expanded@.insert(rows[a.task_cursor as int].task.id, true)
            } else {
                b == (App { focus: Focus::Details, ..a })
            };
        if a.task_cursor < w.len() && w[a.task_cursor as int].has_children
            && !w[a.task_cursor as int].expanded {
            lemma_toggle_on_a_row(a, today, w, b, true);
        } else {
            lemma_cursor_kept(a, b, today);
        }
    } else {
        lemma_cursor_kept(a, b, today);
    }
}

proof fn lemma_entered_on_a_row(a: App, today: Date, b: App)
    requires
        a.entered(today, b),
        a.cursor_on_a_row(today),
    ensures
        b.cursor_on_a_row(today),
{
    if a.focus == Focus::Tasks {
        let w = choose|rows: Seq<FlatRowModel>|
            a.rows_ok(today, rows) && if a.task_cursor < rows.len() {
                let row = rows[a.task_cursor as int];
                if row.has_children {
                    &&& b == (App { expanded: b.expanded, ..a })
                    &&& b.expanded@ == a.expanded@.insert(
                        row.task.id,
                        !crate::tree::expanded_in(a.expanded@, row.task.id),
                    )
                } else {
                    b == (App { focus: Focus::Details, ..a })
                }
            } else {
                b == a
            };
        if a.task_cursor < w.len() && w[a.task_cursor as int].has_children {
            lemma_toggle_on_a_row(
                a,
                today,
                w,
                b,
                !crate::tree::expanded_in(a.expanded@, w[a.task_cursor as int].task.id),
            );
        } else {
            lemma_cursor_kept(a, b, today);
        }
    } else if a.focus == Focus::Sidebar && a.sidebar_cursor < a.sidebar().len() && !(
    a.sidebar()[a.sidebar_cursor as int] is SectionHeader) {
        assert(b.task_cursor == 0);
    } else {
        lemma_cursor_kept(a, b, today);
    }
}

proof fn lemma_single_key_on_a_row(
    a: App,
    key: Key,
    today: Date,
    now: Timestamp,
    b: App,
    res: AppResult<Effect>,
)
    requires
        single_key_outcome(a, key, today, now, b, res),
        a.cursor_on_a_row(today),
    ensures
        b.cursor_on_a_row(today),
{
    match key {
        Key::Char('j') | Key::Down => lemma_down_on_a_row(a, today, b),
        Key::Char('k') | Key::Up => lemma_up_on_a_row(a, today, b),
        Key::Char('h') | Key::Left => lemma_left_on_a_row(a, today, b),
        Key::Char('l') | Key::Right => lemma_right_on_a_row(a, today, b),
        Key::Char('G') => lemma_bottom_on_a_row(a, today, b),
        Key::Char('c') => {
            let mid = App { search_query: None, status_message: b.status_message, ..a };
            lemma_normalized_on_a_row(mid, today, b);
        },
        Key::Enter => lemma_entered_on_a_row(a, today, b),
        _ => lemma_cursor_kept(a, b, today),
    }
}

proof fn lemma_normal_key_on_a_row(
    a: App,
    key: Key,
    today: Date,
    now: Timestamp,
    b: App,
    res: AppResult<Effect>,
)
    requires
        normal_outcome(a, key, today, now, b, res),
        a.cursor_on_a_row(today),
    ensures
        b.cursor_on_a_row(today),
{
    if a.pending_g && key == Key::Char('g') {
        let a1 = App { pending_g: false, ..a };
        lemma_cursor_kept(a, a1, today);
        if a1.focus != Focus::Tasks {
            lemma_cursor_kept(a1, b, today);
        }
    } else {
        let a2 = App { pending_g: false, pending_d: false, ..a };
        lemma_cursor_kept(a, a2, today);
        if a.pending_d && key == Key::Char('d') {
            lemma_cursor_kept(a2, b, today);
        } else {
            lemma_single_key_on_a_row(a2, key, today, now, b, res);
        }
    }
}

proof fn lemma_bar_key_on_a_row(
    a: App,
    key: Key,
    is_command: bool,
    today: Date,
    now: Timestamp,
    b: App,
    res: AppResult<Effect>,
)
    requires
        bar_outcome(a, key, is_command, today, now, b, res),
        a.cursor_on_a_row(today),
    ensures
        b.cursor_on_a_row(today),
{
    if key == Key::Enter {
        let mid = choose|mid: App| enter_outcome(a, mid, is_command, today, now, b, res);
        lemma_cursor_kept(a, mid, today);
        if is_command {
            match parse_spec(a.input_buffer@) {
                Ok(cmd) => {
                    if cmd == CommandModel::ClearFilters {
                        let mid2 = App {
                            search_query: None,
                            view: crate::app::View::All,
                            status_message: b.status_message,
                            ..mid
                        };
                        lemma_normalized_on_a_row(mid2, today, b);
                    } else {
                        lemma_cursor_kept(mid, b, today);
                    }
                },
                Err(_) => {
                    lemma_cursor_kept(mid, b, today);
                },
            }
        } else {
            let mid2 = App { search_query: b.search_query, ..mid };
            lemma_normalized_on_a_row(mid2, today, b);
        }
    } else {
        lemma_cursor_kept(a, b, today);
    }
}

/// Every key keeps the task cursor on a row of what the view shows (or at
/// 0 when it shows none), whatever the result, with the date unchanged.
pub proof fn law_cursor_stays_on_a_row(
    a: App,
    key: KeyInput,
    today: Date,
    now: Timestamp,
    b: App,
    res: AppResult<Effect>,
)
    requires
        key_outcome(a, key, today, now, b, res),
        a.cursor_on_a_row(today),
    ensures
        b.cursor_on_a_row(today),
{
    if key.ctrl && key.key == Key::Char('c') {
        lemma_cursor_kept(a, b, today);
    } else {
        match a.mode {
            Mode::Normal => lemma_normal_key_on_a_row(a, key.key, today, now, b, res),
            Mode::Insert => lemma_cursor_kept(a, b, today),
            Mode::Command => lemma_bar_key_on_a_row(a, key.key, true, today, now, b, res),
            Mode::Search => lemma_bar_key_on_a_row(a, key.key, false, today, now, b, res),
            Mode::Help => lemma_cursor_kept(a, b, today),
        }
    }
}

/// `:due today` (any case, blanks around it) asks to set the selected
/// task's due date to the date the key is handled on, `:due tomorrow` to
/// the day after, and `:due none` or a blank value to clear it; only the
/// due date and the update time of the task change.
pub proof fn law_due_keywords(
    a: App,
    t: TaskModel,
    s: Seq<char>,
    today: Date,
    now: Timestamp,
    b: App,
    res: AppResult<Effect>,
)
    requires
        due_outcome(a, Some(t), s, today, now, b, res),
        ascii_lower(spec_trim(s)) == "today"@ || ascii_lower(spec_trim(s)) == "tomorrow"@
            || ascii_lower(spec_trim(s)) == "none"@,
    ensures
        b == a,
        (res matches Ok(e) && e@ matches EffectModel::Update { task, .. } && task == (TaskModel {
            due_date: task.due_date,
            updated_at: now,
            ..t
        }) && (ascii_lower(spec_trim(s)) == "today"@ ==> (task.due_date matches Some(d) && d@
            == today@)) && (ascii_lower(spec_trim(s)) == "tomorrow"@ ==> (task.due_date matches Some(
            d,
        ) && d@ == today@ + 1)) && (ascii_lower(spec_trim(s)) == "none"@ ==> (task.due_date is None))),
{
    reveal_strlit("today");
    reveal_strlit("tomorrow");
    reveal_strlit("none");
    let l = ascii_lower(spec_trim(s));
    if l == "today"@ {
        assert(l != "none"@) by {
            assert(l.len() != "none"@.len());
        }
        assert(spec_trim(s).len() != 0);
    } else if l == "tomorrow"@ {
        assert(l != "none"@) by {
            assert(l.len() != "none"@.len());
        }
        assert(l != "today"@) by {
            assert(l.len() != "today"@.len());
        }
        assert(spec_trim(s).len() != 0);
    }
}

/// Key handling never changes the tasks, the projects or the
/// configuration by itself: every change to them goes through outside work
/// (an `Effect`) and comes back through a `finish_*` method.
pub proof fn law_keys_keep_data(
    a: App,
    key: KeyInput,
    today: Date,
    now: Timestamp,
    b: App,
    res: AppResult<Effect>,
)
    requires
        key_outcome(a, key, today, now, b, res),
    ensures
        b.tasks == a.tasks,
        b.projects == a.projects,
        b.config == a.config,
{
}

} // verus!
