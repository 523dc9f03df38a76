//! The text the screen shows: sidebar labels, task rows, the details pane,
//! the work log and the bottom bar. Colours and layout are the caller's.
use vstd::prelude::*;

use crate::app::{project_name, App, SidebarItem, SidebarModel, View, ViewModel};
use crate::calendar::{date_text, Date};
use crate::filters::{pick_on, today_test, today_view};
use crate::input::EditTarget;
use crate::models::{strings_view, task_models, Project, Status, Task, TaskModel};
use crate::pomodoro::{clock_text, remaining_of, Pomodoro};
use crate::store::{join_strings, joined};
use crate::text::{chars_of, copy_str, push_str, spec_trim, str_eq, string_of_range, trim};
use crate::tree::{FlatRow, FlatRowModel};
use vstd::view::View as _;

verus! {

// ---------------------------------------------------------------------
// Sidebar
// ---------------------------------------------------------------------

/// The text of a sidebar row.
pub open spec fn sidebar_text(item: SidebarModel) -> Seq<char> {
    match item {
        SidebarModel::SectionHeader(s) => s,
        SidebarModel::View(ViewModel::All) => "  All"@,
        SidebarModel::View(ViewModel::Today) => "  Today"@,
        SidebarModel::View(ViewModel::Done) => "  Done"@,
        SidebarModel::View(ViewModel::Log) => "  Log"@,
        SidebarModel::View(_) => "  ?"@,
        SidebarModel::Project(_, name) => "  # "@ + name,
        SidebarModel::Tag(t) => "  @ "@ + t,
    }
}

pub fn sidebar_label(item: &SidebarItem) -> (res: String)
    ensures
        res@ == sidebar_text(item@),
{
    match item {
        SidebarItem::SectionHeader(s) => copy_str(s),
        SidebarItem::View(v) => match v {
            View::All => copy_str("  All"),
            View::Today => copy_str("  Today"),
            View::Done => copy_str("  Done"),
            View::Log => copy_str("  Log"),
            _ => copy_str("  ?"),
        },
        SidebarItem::Project(p) => {
            let mut s = copy_str("  # ");
            push_str(&mut s, p.name.as_str());
            s
        },
        SidebarItem::Tag(t) => {
            let mut s = copy_str("  @ ");
            push_str(&mut s, t.as_str());
            s
        },
    }
}

/// The sidebar text of the current view (without its indent); none for a
/// project that is gone.
pub open spec fn active_text(v: ViewModel, projects: Seq<Project>) -> Option<Seq<char>> {
    match v {
        ViewModel::All => Some("All"@),
        ViewModel::Today => Some("Today"@),
        ViewModel::Done => Some("Done"@),
        ViewModel::Log => Some("Log"@),
        ViewModel::Project(pid) => match project_name(projects, pid) {
            Some(n) => Some("# "@ + n),
            None => None,
        },
        ViewModel::Tag(t) => Some("@ "@ + t),
    }
}

pub fn active_sidebar_label(app: &App) -> (res: Option<String>)
    ensures
        crate::filters::opt_text(res) == active_text(app.view@, app.projects@),
{
    match &app.view {
        View::All => Some(copy_str("All")),
        View::Today => Some(copy_str("Today")),
        View::Done => Some(copy_str("Done")),
        View::Log => Some(copy_str("Log")),
        View::Project(pid) => match crate::app::find_project_name(&app.projects, *pid) {
            Some(n) => {
                let mut s = copy_str("# ");
                push_str(&mut s, n.as_str());
                Some(s)
            },
            None => None,
        },
        View::Tag(t) => {
            let mut s = copy_str("@ ");
            push_str(&mut s, t.as_str());
            Some(s)
        },
    }
}

/// Whether a sidebar row, trimmed, is the current view's text.
pub fn label_is_active(label: &str, active: &Option<String>) -> (res: bool)
    ensures
        res == (crate::filters::opt_text(*active) == Some(spec_trim(label@))),
{
    match active {
        Some(a) => {
            let t = trim(label);
            str_eq(a.as_str(), t.as_str())
        },
        None => false,
    }
}

// ---------------------------------------------------------------------
// Task rows
// ---------------------------------------------------------------------

/// `s` written `n` times.
pub open spec fn repeated(s: Seq<char>, n: nat) -> Seq<char>
    decreases n,
{
    if n == 0 {
        Seq::empty()
    } else {
        repeated(s, (n - 1) as nat) + s
    }
}

/// The pieces of a task row; `title_done`, `title_overdue` and `due_late`
/// pick their colours.
pub struct RowText {
    pub indent: String,
    pub marker: String,
    pub checkbox: String,
    pub priority: String,
    pub title: String,
    pub title_done: bool,
    pub title_overdue: bool,
    pub due: Option<String>,
    pub due_late: bool,
    pub tags: Option<String>,
}

/// What a row shows of row `r` on `today`.
pub open spec fn row_text_ok(res: RowText, r: FlatRowModel, today: Date) -> bool {
    let t = r.task;
    &&& res.indent@ == repeated("  "@, r.depth as nat)
    &&& res.marker@ == (if r.has_children {
        if r.expanded {
            "▾ "@
        } else {
            "▸ "@
        }
    } else {
        "  "@
    })
    &&& res.checkbox@ == t.status.checkbox()
    &&& res.priority@ == "["@ + t.priority.letter() + "] "@
    &&& res.title@ == t.title
    &&& res.title_done == t.done()
    &&& res.title_overdue == t.overdue(today)
    &&& match t.due_date {
        Some(d) => {
            &&& res.due matches Some(s) && s@ == "("@ + date_text(d@) + ")"@
            &&& res.due_late == (!t.done() && d@ < today@)
        },
        None => res.due is None && !res.due_late,
    }
    &&& if t.tags.len() == 0 {
        res.tags is None
    } else {
        res.tags matches Some(s) && s@ == "["@ + joined(t.tags, ","@) + "]"@
    }
}

pub fn row_text(row: &FlatRow, today: Date) -> (res: RowText)
    ensures
        row_text_ok(res, row@, today),
{
    let t = &row.task;
    let mut indent = String::new();
    let mut k: usize = 0;
    while k < row.depth
        invariant
            k <= row.depth,
            indent@ == repeated("  "@, k as nat),
        decreases row.depth - k,
    {
        push_str(&mut indent, "  ");
        k += 1;
    }
    let marker = if row.has_children {
        if row.expanded {
            copy_str("▾ ")
        } else {
            copy_str("▸ ")
        }
    } else {
        copy_str("  ")
    };
    let mut priority = copy_str("[");
    push_str(&mut priority, t.priority.symbol());
    push_str(&mut priority, "] ");
    let (due, due_late) = match t.due_date {
        Some(d) => {
            let mut s = copy_str("(");
            push_str(&mut s, d.to_text().as_str());
            push_str(&mut s, ")");
            (Some(s), !t.is_done() && d.before(&today))
        },
        None => (None, false),
    };
    let tags = if t.tags.len() == 0 {
        None
    } else {
        let mut s = copy_str("[");
        push_str(&mut s, join_strings(t.tags.as_slice(), ",").as_str());
        push_str(&mut s, "]");
        Some(s)
    };
    RowText {
        indent,
        marker,
        checkbox: copy_str(t.status.symbol()),
        priority,
        title: copy_str(t.title.as_str()),
        title_done: t.is_done(),
        title_overdue: t.is_overdue(today),
        due,
        due_late,
        tags,
    }
}

// ---------------------------------------------------------------------
// Details pane
// ---------------------------------------------------------------------

/// The project, due date and tags lines of the details pane ("—" for none).
pub struct DetailText {
    pub project: String,
    pub due: String,
    pub tags: String,
}

pub open spec fn detail_text_ok(res: DetailText, t: TaskModel, projects: Seq<Project>) -> bool {
    &&& res.project@ == match t.project_id {
        Some(pid) => match project_name(projects, pid) {
            Some(n) => n,
            None => "—"@,
        },
        None => "—"@,
    }
    &&& res.due@ == match t.due_date {
        Some(d) => date_text(d@),
        None => "—"@,
    }
    &&& res.tags@ == if t.tags.len() == 0 {
        "—"@
    } else {
        joined(t.tags, ", "@)
    }
}

pub fn detail_text(task: &Task, projects: &Vec<Project>) -> (res: DetailText)
    ensures
        detail_text_ok(res, task@, projects@),
{
    let project = match task.project_id {
        Some(pid) => match crate::app::find_project_name(projects, pid) {
            Some(n) => n,
            None => copy_str("—"),
        },
        None => copy_str("—"),
    };
    let due = match task.due_date {
        Some(d) => d.to_text(),
        None => copy_str("—"),
    };
    let tags = if task.tags.len() == 0 {
        copy_str("—")
    } else {
        join_strings(task.tags.as_slice(), ", ")
    };
    DetailText { project, due, tags }
}

/// The counts the today summary shows.
pub struct TodaySummary {
    pub overdue: usize,
    pub due_today: usize,
    pub doing: usize,
}

/// The test "overdue on `today`".
pub open spec fn overdue_test(today: Date) -> spec_fn(TaskModel) -> bool {
    |t: TaskModel| t.overdue(today)
}

/// The test "due on `today`".
pub open spec fn due_today_test(today: Date) -> spec_fn(TaskModel) -> bool {
    |t: TaskModel| t.due_on(today)
}

/// The test "in progress".
pub open spec fn doing_test() -> spec_fn(TaskModel) -> bool {
    |t: TaskModel| t.status == Status::Doing
}

/// How many of today's tasks are overdue, due today and in progress.
pub fn today_summary(tasks: &[Task], today: Date) -> (res: TodaySummary)
    ensures
        ({
            let tv = task_models(tasks@).filter(today_test(today));
            &&& res.overdue == tv.filter(overdue_test(today)).len()
            &&& res.due_today == tv.filter(due_today_test(today)).len()
            &&& res.doing == tv.filter(doing_test()).len()
        }),
{
    let tv = today_view(tasks, today);
    let ghost ts = task_models(tv@);
    let ghost (po, pd, pg) = (overdue_test(today), due_today_test(today), doing_test());
    let mut overdue: usize = 0;
    let mut due_today: usize = 0;
    let mut doing: usize = 0;
    let mut i: usize = 0;
    proof {
        reveal(Seq::filter);
        assert(ts.take(0) =~= Seq::<TaskModel>::empty());
    }
    while i < tv.len()
        invariant
            i <= tv.len(),
            ts == task_models(tv@),
            po == overdue_test(today),
            pd == due_today_test(today),
            pg == doing_test(),
            overdue == ts.take(i as int).filter(po).len(),
            due_today == ts.take(i as int).filter(pd).len(),
            doing == ts.take(i as int).filter(pg).len(),
            overdue <= i && due_today <= i && doing <= i,
        decreases tv.len() - i,
    {
        proof {
            assert(ts.take(i + 1) =~= ts.take(i as int).push(ts[i as int]));
            crate::tree::lemma_filter_push(ts.take(i as int), ts[i as int], po);
            crate::tree::lemma_filter_push(ts.take(i as int), ts[i as int], pd);
            crate::tree::lemma_filter_push(ts.take(i as int), ts[i as int], pg);
        }
        let t = &tv[i];
        if t.is_overdue(today) {
            overdue += 1;
        }
        if t.due_today(today) {
            due_today += 1;
        }
        if t.status == Status::Doing {
            doing += 1;
        }
        i += 1;
    }
    proof {
        assert(ts.take(i as int) =~= ts);
    }
    TodaySummary { overdue, due_today, doing }
}

// ---------------------------------------------------------------------
// Bottom bar
// ---------------------------------------------------------------------

/// The prompt before the text being typed in insert mode.
pub open spec fn prompt_text(target: Option<EditTarget>) -> Seq<char> {
    match target {
        Some(EditTarget::NewTask) => "new task: "@,
        Some(EditTarget::NewSubtask { .. }) => "new subtask: "@,
        Some(EditTarget::EditTitle { .. }) => "title: "@,
        Some(EditTarget::EditDescription { .. }) => "description: "@,
        None => "input: "@,
    }
}

pub fn insert_prompt(target: Option<EditTarget>) -> (res: &'static str)
    ensures
        res@ == prompt_text(target),
{
    match target {
        Some(EditTarget::NewTask) => "new task: ",
        Some(EditTarget::NewSubtask { .. }) => "new subtask: ",
        Some(EditTarget::EditTitle { .. }) => "title: ",
        Some(EditTarget::EditDescription { .. }) => "description: ",
        None => "input: ",
    }
}

/// The key reminder shown when there is no status message.
pub open spec fn hints_text() -> Seq<char> {
    "j/k move  l details  a add  o subtask  i edit  space done  s status  p pri  dd del  / search  : cmd  ? help  q quit"@
}

pub fn key_hints() -> (res: &'static str)
    ensures
        res@ == hints_text(),
{
    "j/k move  l details  a add  o subtask  i edit  space done  s status  p pri  dd del  / search  : cmd  ? help  q quit"
}

/// The message line in Normal and Help mode: the status, or the key hints.
pub fn message_line(app: &App) -> (res: String)
    ensures
        res@ == match app.status_message {
            Some(m) => m@,
            None => hints_text(),
        },
{
    match &app.status_message {
        Some(m) => copy_str(m.as_str()),
        None => copy_str(key_hints()),
    }
}

/// The timer's label for `remaining` nanoseconds left: "DONE" once none
/// are left, else "MM:SS" of the whole seconds left.
pub open spec fn label_text(remaining: int) -> Seq<char> {
    if remaining == 0 {
        "DONE"@
    } else {
        clock_text((remaining / 1000000000) as nat)
    }
}

/// The timer's label for `remaining` nanoseconds left.
pub fn label_of(remaining: u128) -> (res: String)
    requires
        remaining / 1000000000 <= u64::MAX,
    ensures
        res@ == label_text(remaining as int),
{
    if remaining == 0 {
        copy_str("DONE")
    } else {
        Pomodoro::text_of(remaining)
    }
}

/// The timer's label: "DONE" once the time is up, else the time left. It
/// reads the clock once.
pub fn pomo_label(p: &Pomodoro) -> (res: String)
    ensures
        exists|e: u128| res@ == label_text(remaining_of(p.duration_secs as int, e as int)),
{
    let r = p.remaining();
    proof {
        assert(r / 1000000000 <= p.duration_secs) by (nonlinear_arith)
            requires
                r <= p.duration_secs * 1000000000,
        ;
    }
    label_of(r)
}

// ---------------------------------------------------------------------
// Description lines
// ---------------------------------------------------------------------

/// The position of the first newline in `s`, if any.
pub open spec fn first_newline(s: Seq<char>) -> Option<int>
    decreases s.len(),
{
    if s.len() == 0 {
        None
    } else if s[0] == '\n' {
        Some(0)
    } else {
        match first_newline(s.drop_first()) {
            Some(k) => Some(k + 1),
            None => None,
        }
    }
}

/// A line without the carriage return that ended it.
pub open spec fn without_cr(l: Seq<char>) -> Seq<char> {
    if l.len() > 0 && l.last() == '\r' {
        l.drop_last()
    } else {
        l
    }
}

/// The lines of `s` as `str::lines` gives them: split at "\n" or "\r\n",
/// the last line ending optional.
pub open spec fn lines_of(s: Seq<char>) -> Seq<Seq<char>>
    decreases s.len(),
{
    if s.len() == 0 {
        Seq::empty()
    } else {
        match first_newline(s) {
            None => seq![s],
            Some(k) => if 0 <= k < s.len() {
                seq![without_cr(s.take(k))] + lines_of(s.skip(k + 1))
            } else {
                Seq::empty()
            },
        }
    }
}

proof fn lemma_first_newline_at(s: Seq<char>, k: int)
    requires
        0 <= k < s.len(),
        s[k] == '\n',
        forall|j: int| 0 <= j < k ==> s[j] != '\n',
    ensures
        first_newline(s) == Some(k),
    decreases k,
{
    if k > 0 {
        lemma_first_newline_at(s.drop_first(), k - 1);
    }
}

proof fn lemma_no_newline(s: Seq<char>)
    requires
        forall|j: int| 0 <= j < s.len() ==> s[j] != '\n',
    ensures
        first_newline(s) is None,
    decreases s.len(),
{
    if s.len() > 0 {
        lemma_no_newline(s.drop_first());
    }
}

/// The lines of a description.
pub fn description_lines(s: &str) -> (res: Vec<String>)
    ensures
        strings_view(res@) == lines_of(s@),
{
    let v = chars_of(s);
    let mut out: Vec<String> = Vec::new();
    let mut start: usize = 0;
    let mut i: usize = 0;
    proof {
        assert(v@.skip(0) =~= v@);
        assert(strings_view(out@) =~= Seq::<Seq<char>>::empty());
    }
    while i < v.len()
        invariant
            start <= i <= v.len(),
            forall|j: int| start <= j < i ==> v@[j] != '\n',
            strings_view(out@) + lines_of(v@.skip(start as int)) == lines_of(v@),
        decreases v.len() - i,
    {
        if v[i] == '\n' {
            let ghost w = v@.skip(start as int);
            let ghost before = out@;
            proof {
                lemma_first_newline_at(w, i - start);
                assert(w.skip(i - start + 1) =~= v@.skip(i + 1));
            }
            let mut end: usize = i;
            if end > start && v[end - 1] == '\r' {
                end = end - 1;
            }
            let line = string_of_range(&v, start, end);
            proof {
                assert(line@ =~= without_cr(w.take(i - start)));
            }
            out.push(line);
            proof {
                assert(strings_view(out@) =~= strings_view(before).push(line@));
                assert(strings_view(out@) + lines_of(v@.skip(i + 1)) =~= strings_view(before)
                    + lines_of(w));
            }
            start = i + 1;
        }
        i += 1;
    }
    if start < v.len() {
        let ghost w = v@.skip(start as int);
        let ghost before = out@;
        proof {
            lemma_no_newline(w);
        }
        let line = string_of_range(&v, start, v.len());
        proof {
            assert(line@ =~= w);
        }
        out.push(line);
        proof {
            assert(strings_view(out@) =~= strings_view(before).push(line@));
            assert(strings_view(out@) =~= strings_view(before) + lines_of(w));
        }
    } else {
        proof {
            assert(v@.skip(start as int) =~= Seq::<char>::empty());
            assert(strings_view(out@) + Seq::<Seq<char>>::empty() =~= strings_view(out@));
        }
    }
    out
}

// ---------------------------------------------------------------------
// Work log
// ---------------------------------------------------------------------

/// One day of the work log: the titles of the tasks completed that day.
pub struct LogGroup {
    pub day: Date,
    pub titles: Vec<String>,
}

/// The titles of tasks, in order.
pub open spec fn titles_of(ts: Seq<TaskModel>) -> Seq<Seq<char>> {
    ts.map_values(|t: TaskModel| t.title)
}

/// Whether `gs` is the work log of tasks `ts` whose log dates are `ds`:
/// one group per date that occurs, newest first, each with the titles of
/// that date's tasks in order.
pub open spec fn log_ok(gs: Seq<LogGroup>, ts: Seq<TaskModel>, ds: Seq<Option<Date>>) -> bool {
    let days = gs.map_values(|g: LogGroup| g.day);
    &&& newest_first_days(days)
    &&& days_from(days, ds, ds.len() as int)
    &&& days_cover(days, ds, ds.len() as int)
    &&& forall|k: int|
        0 <= k < gs.len() ==> strings_view(#[trigger] gs[k].titles@) == titles_of(
            pick_on(ts, ds, gs[k].day),
        )
}

/// The titles of the tasks, in order.
fn titles(tasks: &Vec<Task>) -> (res: Vec<String>)
    ensures
        strings_view(res@) == titles_of(task_models(tasks@)),
{
    let ghost tl = titles_of(task_models(tasks@));
    let mut out: Vec<String> = Vec::new();
    let mut i: usize = 0;
    while i < tasks.len()
        invariant
            i <= tasks.len(),
            tl == titles_of(task_models(tasks@)),
            strings_view(out@) == tl.take(i as int),
        decreases tasks.len() - i,
    {
        let ghost before = out@;
        let c = copy_str(tasks[i].title.as_str());
        out.push(c);
        proof {
            assert(strings_view(out@) =~= strings_view(before).push(c@));
            assert(strings_view(out@) =~= tl.take(i + 1));
        }
        i += 1;
    }
    proof {
        assert(tl.take(i as int) =~= tl);
    }
    out
}

/// Dates strictly newest first.
pub open spec fn newest_first_days(days: Seq<Date>) -> bool {
    forall|a: int, b: int| 0 <= a < b < days.len() ==> days[a]@ > days[b]@
}

/// Every date of `days` occurs among the first `n` entries of `ds`.
pub open spec fn days_from(days: Seq<Date>, ds: Seq<Option<Date>>, n: int) -> bool {
    forall|k: int|
        #![trigger days[k]]
        0 <= k < days.len() ==> exists|j: int| #![trigger ds[j]] 0 <= j < n && ds[j] == Some(days[k])
}

/// Every date among the first `n` entries of `ds` is one of `days`.
pub open spec fn days_cover(days: Seq<Date>, ds: Seq<Option<Date>>, n: int) -> bool {
    forall|j: int|
        #![trigger ds[j]]
        0 <= j < n && ds[j] is Some ==> exists|k: int| #![trigger days[k]] 0 <= k < days.len() && ds[j] == Some(days[k])
}

proof fn lemma_days_keep(days: Seq<Date>, ds: Seq<Option<Date>>, i: int)
    requires
        0 <= i < ds.len(),
        days_from(days, ds, i),
        days_cover(days, ds, i),
        ds[i] matches Some(d) ==> exists|k: int| 0 <= k < days.len() && d == days[k],
    ensures
        days_from(days, ds, i + 1),
        days_cover(days, ds, i + 1),
{
    assert forall|k: int| #![trigger days[k]] 0 <= k < days.len() implies exists|j: int|
        #![trigger ds[j]]
        0 <= j < i + 1 && ds[j] == Some(days[k]) by {
        let j = choose|j: int| #![trigger ds[j]] 0 <= j < i && ds[j] == Some(days[k]);
        assert(ds[j] == Some(days[k]));
    }
    assert forall|j: int| #![trigger ds[j]] 0 <= j < i + 1 && ds[j] is Some implies exists|k: int|
        #![trigger days[k]]
        0 <= k < days.len() && ds[j] == Some(days[k]) by {
        if j == i {
            let k = choose|k: int| 0 <= k < days.len() && ds[i]->0 == days[k];
            assert(days[k] == ds[i]->0);
        }
    }
}

proof fn lemma_days_insert_order(days: Seq<Date>, p: int, d: Date)
    requires
        0 <= p <= days.len(),
        newest_first_days(days),
        forall|k: int| 0 <= k < p ==> d@ < days[k]@,
        p < days.len() ==> d@ > days[p]@,
    ensures
        newest_first_days(days.insert(p, d)),
{
    let nd = days.insert(p, d);
    assert forall|a: int, b: int| 0 <= a < b < nd.len() implies nd[a]@ > nd[b]@ by {
        if b < p {
        } else if a > p {
            assert(nd[a] == days[a - 1]);
            assert(nd[b] == days[b - 1]);
        } else if a == p {
            assert(nd[b] == days[b - 1]);
        } else {
            if b > p {
                assert(nd[b] == days[b - 1]);
            }
        }
    }
}

proof fn lemma_days_insert_from(days: Seq<Date>, p: int, d: Date, ds: Seq<Option<Date>>, i: int)
    requires
        0 <= p <= days.len(),
        0 <= i < ds.len(),
        ds[i] == Some(d),
        days_from(days, ds, i),
    ensures
        days_from(days.insert(p, d), ds, i + 1),
{
    let nd = days.insert(p, d);
    assert forall|k: int| #![trigger nd[k]] 0 <= k < nd.len() implies exists|j: int|
        #![trigger ds[j]]
        0 <= j < i + 1 && ds[j] == Some(nd[k]) by {
        if k == p {
            assert(ds[i] == Some(nd[k]));
        } else {
            let k0 = if k < p {
                k
            } else {
                k - 1
            };
            assert(nd[k] == days[k0]);
            let j = choose|j: int| #![trigger ds[j]] 0 <= j < i && ds[j] == Some(days[k0]);
            assert(ds[j] == Some(nd[k]));
        }
    }
}

proof fn lemma_days_insert_cover(days: Seq<Date>, p: int, d: Date, ds: Seq<Option<Date>>, i: int)
    requires
        0 <= p <= days.len(),
        0 <= i < ds.len(),
        ds[i] == Some(d),
        days_cover(days, ds, i),
    ensures
        days_cover(days.insert(p, d), ds, i + 1),
{
    let nd = days.insert(p, d);
    assert forall|j: int| #![trigger ds[j]] 0 <= j < i + 1 && ds[j] is Some implies exists|k: int|
        #![trigger nd[k]]
        0 <= k < nd.len() && ds[j] == Some(nd[k]) by {
        if j == i {
            assert(nd[p] == d);
        } else {
            let k = choose|k: int| #![trigger days[k]] 0 <= k < days.len() && ds[j] == Some(days[k]);
            if k < p {
                assert(nd[k] == days[k]);
            } else {
                assert(nd[k + 1] == days[k]);
            }
        }
    }
}

/// The dates that occur in `ds`, newest first, each once.
fn log_days(ds: &[Option<Date>]) -> (res: Vec<Date>)
    ensures
        newest_first_days(res@),
        days_from(res@, ds@, ds@.len() as int),
        days_cover(res@, ds@, ds@.len() as int),
{
    let mut days: Vec<Date> = Vec::new();
    let mut i: usize = 0;
    while i < ds.len()
        invariant
            i <= ds@.len(),
            newest_first_days(days@),
            days_from(days@, ds@, i as int),
            days_cover(days@, ds@, i as int),
        decreases ds@.len() - i,
    {
        match ds[i] {
            Some(d) => {
                let mut p: usize = 0;
                while p < days.len() && d.before(&days[p])
                    invariant
                        p <= days@.len(),
                        forall|k: int| 0 <= k < p ==> d@ < days@[k]@,
                    decreases days@.len() - p,
                {
                    p += 1;
                }
                if p < days.len() && d.same(&days[p]) {
                    proof {
                        crate::calendar::lemma_date_view_injective(d, days@[p as int]);
                        lemma_days_keep(days@, ds@, i as int);
                    }
                } else {
                    let ghost old_days = days@;
                    days.insert(p, d);
                    proof {
                        lemma_days_insert_order(old_days, p as int, d);
                        lemma_days_insert_from(old_days, p as int, d, ds@, i as int);
                        lemma_days_insert_cover(old_days, p as int, d, ds@, i as int);
                    }
                }
            },
            None => {
                proof {
                    lemma_days_keep(days@, ds@, i as int);
                }
            },
        }
        i += 1;
    }
    days
}

/// The work log of `tasks`, given each task's log date: the local date of
/// its completion, or `None` for a task that is not in the log.
pub fn log_groups_at(tasks: &[Task], log_dates: &[Option<Date>]) -> (res: Vec<LogGroup>)
    requires
        log_dates@.len() == tasks@.len(),
    ensures
        log_ok(res@, task_models(tasks@), log_dates@),
{
    let days = log_days(log_dates);
    let mut out: Vec<LogGroup> = Vec::new();
    let mut k: usize = 0;
    while k < days.len()
        invariant
            k <= days@.len(),
            log_dates@.len() == tasks@.len(),
            out@.len() == k,
            forall|j: int| 0 <= j < k ==> (#[trigger] out@[j]).day == days@[j],
            forall|j: int|
                0 <= j < k ==> strings_view(#[trigger] out@[j].titles@) == titles_of(
                    pick_on(task_models(tasks@), log_dates@, out@[j].day),
                ),
        decreases days@.len() - k,
    {
        let day = days[k];
        let picked = crate::filters::completed_on_dates(tasks, log_dates, day);
        let t = titles(&picked);
        out.push(LogGroup { day, titles: t });
        k += 1;
    }
    proof {
        assert(out@.map_values(|g: LogGroup| g.day) =~= days@);
    }
    out
}

/// The work log of `tasks` by the local date of each completion: the
/// groups of `log_groups_at` for those dates (see `completion_date_ok`).
pub fn log_groups(tasks: &[Task]) -> (res: Vec<LogGroup>)
    ensures
        exists|ds: Seq<Option<Date>>|
            ds.len() == tasks@.len() && (forall|i: int|
                0 <= i < ds.len() ==> crate::filters::completion_date_ok(tasks@[i]@, #[trigger] ds[i]))
                && log_ok(res@, task_models(tasks@), ds),
{
    let dates = crate::filters::completion_dates(tasks);
    log_groups_at(tasks, dates.as_slice())
}

} // verus!
