//! The application state: the views and the sidebar, the rows a view
//! shows, the cursor and how it moves, and the effects a key can ask for.
//!
//! Database, file and clock work happens outside: a key handler (see
//! `keys`) returns an `Effect` for the caller to perform, and the caller
//! hands the outcome back through one of the `finish_*` methods.
use vstd::prelude::*;

use crate::calendar::{instant_lt, Date, Timestamp};
use crate::config::Config;
use crate::filters::{
    accepted_by, apply, query_hits, query_matches, today_test, today_view, FilterModel, TaskFilter,
};
use crate::input::{EditTarget, Focus, Mode};
use crate::models::{strings_view, task_models, Project, Status, Task, TaskModel};
use crate::pomodoro::Pomodoro;
use crate::text::{chars_of, copy_str, lowercased, push_str, to_lowercase};
use crate::tree::{
    build_tree, build_tree_in_order, built_from, flatten_tree, flat_forest, grown_from,
    law_rows_fixed_by_tasks, lemma_depth_mono,
    lemma_filter_push, row_models, FlatRow, FlatRowModel, TaskNode,
};
use std::collections::HashMap;
use vstd::view::View as _;

verus! {

broadcast use vstd::std_specs::hash::group_hash_axioms;

// ---------------------------------------------------------------------
// Views and the sidebar
// ---------------------------------------------------------------------

#[derive(Debug, PartialEq, Eq)]
pub enum View {
    All,
    Today,
    Done,
    Log,
    Project(i64),
    Tag(String),
}

/// A view, as mathematical values.
pub enum ViewModel {
    All,
    Today,
    Done,
    Log,
    Project(i64),
    Tag(Seq<char>),
}

impl vstd::prelude::View for View {
    type V = ViewModel;

    open spec fn view(&self) -> ViewModel {
        match self {
            View::All => ViewModel::All,
            View::Today => ViewModel::Today,
            View::Done => ViewModel::Done,
            View::Log => ViewModel::Log,
            View::Project(id) => ViewModel::Project(*id),
            View::Tag(t) => ViewModel::Tag(t@),
        }
    }
}

impl Clone for View {
    fn clone(&self) -> (res: Self)
        ensures
            res@ == self@,
    {
        match self {
            View::All => View::All,
            View::Today => View::Today,
            View::Done => View::Done,
            View::Log => View::Log,
            View::Project(id) => View::Project(*id),
            View::Tag(t) => View::Tag(copy_str(t.as_str())),
        }
    }
}

/// The name of the first project with id `id`, if any.
pub open spec fn project_name(projects: Seq<Project>, id: i64) -> Option<Seq<char>>
    decreases projects.len(),
{
    if projects.len() == 0 {
        None
    } else if projects[0].id == id {
        Some(projects[0].name@)
    } else {
        project_name(projects.drop_first(), id)
    }
}

/// The id of the first project named `name`, if any.
pub open spec fn project_id_named(projects: Seq<Project>, name: Seq<char>) -> Option<i64>
    decreases projects.len(),
{
    if projects.len() == 0 {
        None
    } else if projects[0].name@ == name {
        Some(projects[0].id)
    } else {
        project_id_named(projects.drop_first(), name)
    }
}

pub(crate) fn find_project_name(projects: &Vec<Project>, id: i64) -> (res: Option<String>)
    ensures
        match res {
            Some(n) => project_name(projects@, id) == Some(n@),
            None => project_name(projects@, id) is None,
        },
{
    let mut i: usize = 0;
    proof {
        assert(projects@.skip(0) =~= projects@);
    }
    while i < projects.len()
        invariant
            i <= projects.len(),
            project_name(projects@.skip(i as int), id) == project_name(projects@, id),
        decreases projects.len() - i,
    {
        proof {
            assert(projects@.skip(i as int)[0] == projects@[i as int]);
            assert(projects@.skip(i as int).drop_first() =~= projects@.skip(i + 1));
        }
        if projects[i].id == id {
            return Some(copy_str(projects[i].name.as_str()));
        }
        i += 1;
    }
    None
}

pub(crate) fn find_project_id(projects: &Vec<Project>, name: &str) -> (res: Option<i64>)
    ensures
        res == project_id_named(projects@, name@),
{
    let mut i: usize = 0;
    proof {
        assert(projects@.skip(0) =~= projects@);
    }
    while i < projects.len()
        invariant
            i <= projects.len(),
            project_id_named(projects@.skip(i as int), name@) == project_id_named(projects@, name@),
        decreases projects.len() - i,
    {
        proof {
            assert(projects@.skip(i as int)[0] == projects@[i as int]);
            assert(projects@.skip(i as int).drop_first() =~= projects@.skip(i + 1));
        }
        if crate::text::str_eq(projects[i].name.as_str(), name) {
            return Some(projects[i].id);
        }
        i += 1;
    }
    None
}

impl View {
    /// The view's title.
    pub open spec fn title(v: ViewModel, projects: Seq<Project>) -> Seq<char> {
        match v {
            ViewModel::All => "All"@,
            ViewModel::Today => "Today"@,
            ViewModel::Done => "Done"@,
            ViewModel::Log => "Log"@,
            ViewModel::Project(id) => match project_name(projects, id) {
                Some(n) => "Project: "@ + n,
                None => "Project: ?"@,
            },
            ViewModel::Tag(t) => "Tag: "@ + t,
        }
    }

    pub fn label(&self, projects: &Vec<Project>) -> (res: String)
        ensures
            res@ == View::title(self@, projects@),
    {
        match self {
            View::All => copy_str("All"),
            View::Today => copy_str("Today"),
            View::Done => copy_str("Done"),
            View::Log => copy_str("Log"),
            View::Project(id) => match find_project_name(projects, *id) {
                Some(n) => {
                    let mut s = copy_str("Project: ");
                    push_str(&mut s, n.as_str());
                    s
                },
                None => copy_str("Project: ?"),
            },
            View::Tag(t) => {
                let mut s = copy_str("Tag: ");
                push_str(&mut s, t.as_str());
                s
            },
        }
    }
}

/// One row in the sidebar list.
#[derive(Debug, Clone)]
pub enum SidebarItem {
    View(View),
    Project(Project),
    Tag(String),
    SectionHeader(&'static str),
}

/// A sidebar row, as mathematical values.
pub enum SidebarModel {
    View(ViewModel),
    Project(i64, Seq<char>),
    Tag(Seq<char>),
    SectionHeader(Seq<char>),
}

impl vstd::prelude::View for SidebarItem {
    type V = SidebarModel;

    open spec fn view(&self) -> SidebarModel {
        match self {
            SidebarItem::View(v) => SidebarModel::View(v@),
            SidebarItem::Project(p) => SidebarModel::Project(p.id, p.name@),
            SidebarItem::Tag(t) => SidebarModel::Tag(t@),
            SidebarItem::SectionHeader(s) => SidebarModel::SectionHeader(s@),
        }
    }
}

pub open spec fn sidebar_models(items: Seq<SidebarItem>) -> Seq<SidebarModel> {
    items.map_values(|i: SidebarItem| i@)
}

/// The sidebar: the four fixed views, then the projects and the tags, each
/// group under a header when it is not empty.
pub open spec fn sidebar_spec(projects: Seq<Project>, tags: Seq<Seq<char>>) -> Seq<SidebarModel> {
    seq![
        SidebarModel::SectionHeader("Views"@),
        SidebarModel::View(ViewModel::All),
        SidebarModel::View(ViewModel::Today),
        SidebarModel::View(ViewModel::Done),
        SidebarModel::View(ViewModel::Log),
    ] + (if projects.len() > 0 {
        seq![SidebarModel::SectionHeader("Projects"@)] + projects.map_values(
            |p: Project| SidebarModel::Project(p.id, p.name@),
        )
    } else {
        Seq::empty()
    }) + (if tags.len() > 0 {
        seq![SidebarModel::SectionHeader("Tags"@)] + tags.map_values(|t: Seq<char>| SidebarModel::Tag(t))
    } else {
        Seq::empty()
    })
}

/// The positions of the rows that can be selected (not headers), in order.
pub open spec fn selectable_of(items: Seq<SidebarModel>) -> Seq<int>
    decreases items.len(),
{
    if items.len() == 0 {
        Seq::empty()
    } else {
        let rest = selectable_of(items.drop_last());
        if items.last() is SectionHeader {
            rest
        } else {
            rest.push(items.len() - 1)
        }
    }
}

proof fn lemma_selectable_bounds(items: Seq<SidebarModel>)
    ensures
        forall|k: int|
            0 <= k < selectable_of(items).len() ==> 0 <= #[trigger] selectable_of(items)[k] < items.len(),
        selectable_of(items).len() <= items.len(),
    decreases items.len(),
{
    if items.len() > 0 {
        lemma_selectable_bounds(items.drop_last());
    }
}

// ---------------------------------------------------------------------
// Keys and effects
// ---------------------------------------------------------------------

/// A key press, reduced to what the handlers read.
#[derive(Debug, Clone, Copy, PartialEq, Eq, Structural)]
pub enum Key {
    Char(char),
    Esc,
    Enter,
    Backspace,
    Tab,
    Up,
    Down,
    Left,
    Right,
    Other,
}

/// A key with the state of the Control modifier.
#[derive(Debug, Clone, Copy, PartialEq, Eq, Structural)]
pub struct KeyInput {
    pub key: Key,
    pub ctrl: bool,
}

/// Which text field an edit writes.
#[derive(Debug, Clone, Copy, PartialEq, Eq, Structural)]
pub enum EditField {
    Title,
    Description,
}

/// Outside work a handler asks for; the caller does it and hands the
/// outcome back.
#[derive(Debug)]
pub enum Effect {
    /// Nothing to do.
    Nothing,
    /// Insert `task`, reload the tasks, then `finish_insert`.
    Insert { task: Task, expand: Option<i64>, message: String },
    /// Read the task `parent_id`, then `on_parent_fetched` with `title`.
    FetchParent { parent_id: i64, title: String },
    /// Read the task `task_id`, then `on_edit_fetched` with `field` and `text`.
    FetchForEdit { task_id: i64, field: EditField, text: String },
    /// Update `task`, reload the tasks, then `finish_update`.
    Update { task: Task, note: Option<String> },
    /// Delete the task `id` (its subtasks go with it), reload, then `finish_delete`.
    Delete { id: i64 },
    /// Create the project `name` unless it exists, reload the projects, then
    /// `finish_new_project`.
    CreateProject { name: String },
    /// Write `markdown` to `path` (or to the default export file), then
    /// `finish_export` with the path written.
    Export { path: Option<String>, markdown: String },
}

/// An effect, as mathematical values.
pub enum EffectModel {
    Nothing,
    Insert { task: TaskModel, expand: Option<i64>, message: Seq<char> },
    FetchParent { parent_id: i64, title: Seq<char> },
    FetchForEdit { task_id: i64, field: EditField, text: Seq<char> },
    Update { task: TaskModel, note: Option<Seq<char>> },
    Delete { id: i64 },
    CreateProject { name: Seq<char> },
    Export { path: Option<Seq<char>>, markdown: Seq<char> },
}

impl vstd::prelude::View for Effect {
    type V = EffectModel;

    open spec fn view(&self) -> EffectModel {
        match self {
            Effect::Nothing => EffectModel::Nothing,
            Effect::Insert { task, expand, message } => EffectModel::Insert {
                task: task@,
                expand: *expand,
                message: message@,
            },
            Effect::FetchParent { parent_id, title } => EffectModel::FetchParent {
                parent_id: *parent_id,
                title: title@,
            },
            Effect::FetchForEdit { task_id, field, text } => EffectModel::FetchForEdit {
                task_id: *task_id,
                field: *field,
                text: text@,
            },
            Effect::Update { task, note } => EffectModel::Update {
                task: task@,
                note: crate::filters::opt_text(*note),
            },
            Effect::Delete { id } => EffectModel::Delete { id: *id },
            Effect::CreateProject { name } => EffectModel::CreateProject { name: name@ },
            Effect::Export { path, markdown } => EffectModel::Export {
                path: crate::filters::opt_text(*path),
                markdown: markdown@,
            },
        }
    }
}

/// The model of an optional task.
pub open spec fn opt_model(t: Option<Task>) -> Option<TaskModel> {
    match t {
        Some(x) => Some(x@),
        None => None,
    }
}

// ---------------------------------------------------------------------
// The log view's order
// ---------------------------------------------------------------------

/// Whether completion `a` comes strictly before completion `b` (no
/// completion before any).
pub open spec fn completion_lt(a: Option<Timestamp>, b: Option<Timestamp>) -> bool {
    match (a, b) {
        (None, Some(_)) => true,
        (Some(x), Some(y)) => instant_lt(x@, y@),
        _ => false,
    }
}

/// The test "completed at `c`".
pub open spec fn completed_is(c: Option<Timestamp>) -> spec_fn(TaskModel) -> bool {
    |t: TaskModel| t.completed_at == c
}

/// `out` is `inp` stably sorted newest completion first.
pub open spec fn newest_first(out: Seq<TaskModel>, inp: Seq<TaskModel>) -> bool {
    &&& out.len() == inp.len()
    &&& forall|i: int, j: int|
        0 <= i <= j < out.len() ==> !completion_lt(out[i].completed_at, out[j].completed_at)
    &&& forall|c: Option<Timestamp>| #[trigger] inp.filter(completed_is(c)) == out.filter(
        completed_is(c),
    )
}

proof fn lemma_completion_total(a: Option<Timestamp>, b: Option<Timestamp>)
    ensures
        !completion_lt(a, b) && !completion_lt(b, a) ==> a == b,
        completion_lt(a, b) ==> !completion_lt(b, a),
{
    if let (Some(x), Some(y)) = (a, b) {
        if !instant_lt(x@, y@) && !instant_lt(y@, x@) {
            crate::calendar::lemma_timestamp_view_injective(x, y);
        }
    }
}

/// Two sequences ordered newest completion first, with the same tasks in
/// the same order for every completion time, are the same.
proof fn lemma_newest_first_same(o1: Seq<TaskModel>, o2: Seq<TaskModel>)
    requires
        o1.len() == o2.len(),
        forall|i: int, j: int|
            0 <= i <= j < o1.len() ==> !completion_lt(o1[i].completed_at, o1[j].completed_at),
        forall|i: int, j: int|
            0 <= i <= j < o2.len() ==> !completion_lt(o2[i].completed_at, o2[j].completed_at),
        forall|c: Option<Timestamp>| #[trigger] o1.filter(completed_is(c)) == o2.filter(completed_is(c)),
    ensures
        o1 == o2,
    decreases o1.len(),
{
    if o1.len() > 0 {
        let n = o1.len() - 1;
        let x1 = o1[n];
        let x2 = o2[n];
        let c1 = x1.completed_at;
        let c2 = x2.completed_at;
        o1.lemma_filter_contains(completed_is(c1), n);
        assert(o1.filter(completed_is(c1)) == o2.filter(completed_is(c1)));
        o2.lemma_filter_contains_rev(completed_is(c1), x1);
        let j1 = choose|j: int| 0 <= j < o2.len() && o2[j] == x1;
        assert(!completion_lt(o2[j1].completed_at, o2[n].completed_at));
        o2.lemma_filter_contains(completed_is(c2), n);
        assert(o1.filter(completed_is(c2)) == o2.filter(completed_is(c2)));
        o1.lemma_filter_contains_rev(completed_is(c2), x2);
        let j2 = choose|j: int| 0 <= j < o1.len() && o1[j] == x2;
        assert(!completion_lt(o1[j2].completed_at, o1[n].completed_at));
        lemma_completion_total(c1, c2);
        assert(c1 == c2);
        let d1 = o1.drop_last();
        let d2 = o2.drop_last();
        assert(o1 =~= d1.push(x1));
        assert(o2 =~= d2.push(x2));
        lemma_filter_push(d1, x1, completed_is(c1));
        lemma_filter_push(d2, x2, completed_is(c1));
        let f1 = d1.filter(completed_is(c1));
        let f2 = d2.filter(completed_is(c1));
        assert(f1.push(x1) == f2.push(x2));
        assert(x1 == f1.push(x1)[f1.len() as int]);
        assert(f1.len() == f2.len());
        assert(x1 == x2);
        assert forall|c: Option<Timestamp>| #[trigger] d1.filter(completed_is(c)) == d2.filter(
            completed_is(c),
        ) by {
            lemma_filter_push(d1, x1, completed_is(c));
            lemma_filter_push(d2, x2, completed_is(c));
            assert(o1.filter(completed_is(c)) == o2.filter(completed_is(c)));
            if c == c1 {
                assert(d1.filter(completed_is(c)) =~= d1.filter(completed_is(c)).push(x1).drop_last());
                assert(d2.filter(completed_is(c)) =~= d2.filter(completed_is(c)).push(x2).drop_last());
            }
        }
        lemma_newest_first_same(d1, d2);
    }
}

proof fn lemma_completion_trans(a: Option<Timestamp>, b: Option<Timestamp>, c: Option<Timestamp>)
    ensures
        !completion_lt(a, b) && !completion_lt(b, c) ==> !completion_lt(a, c),
        completion_lt(a, b) && !completion_lt(c, b) ==> completion_lt(a, c),
{
}

fn completion_before(a: &Option<Timestamp>, b: &Option<Timestamp>) -> (res: bool)
    ensures
        res == completion_lt(*a, *b),
{
    match (a, b) {
        (None, Some(_)) => true,
        (Some(x), Some(y)) => x.before(y),
        _ => false,
    }
}

proof fn lemma_insert_newest(out: Seq<TaskModel>, p: int, x: TaskModel, done: Seq<TaskModel>)
    requires
        0 <= p <= out.len(),
        newest_first(out, done),
        forall|j: int| 0 <= j < p ==> !completion_lt(out[j].completed_at, x.completed_at),
        forall|j: int| p <= j < out.len() ==> completion_lt(out[j].completed_at, x.completed_at),
    ensures
        newest_first(out.insert(p, x), done.push(x)),
{
    let o2 = out.insert(p, x);
    let a = out.take(p);
    let b = out.skip(p);
    assert(o2 =~= (a + seq![x]) + b);
    assert(out =~= a + b);
    assert forall|c: Option<Timestamp>| #[trigger] done.push(x).filter(completed_is(c)) == o2.filter(
        completed_is(c),
    ) by {
        let f = completed_is(c);
        Seq::filter_distributes_over_add(a + seq![x], b, f);
        Seq::filter_distributes_over_add(a, seq![x], f);
        Seq::filter_distributes_over_add(a, b, f);
        lemma_filter_push(done, x, f);
        lemma_filter_push(Seq::<TaskModel>::empty(), x, f);
        assert(Seq::<TaskModel>::empty().push(x) =~= seq![x]);
        reveal(Seq::filter);
        assert(Seq::<TaskModel>::empty().filter(f) =~= Seq::<TaskModel>::empty());
        assert(done.filter(f) == out.filter(f));
        if x.completed_at == c {
            assert forall|j: int| 0 <= j < b.len() implies !f(#[trigger] b[j]) by {
                assert(b[j] == out[p + j]);
                lemma_completion_total(out[p + j].completed_at, x.completed_at);
            }
            crate::tree::lemma_filter_empty(b, f);
            assert(seq![x].filter(f) == seq![x]);
            assert(out.filter(f) =~= a.filter(f));
            assert(o2.filter(f) =~= a.filter(f).push(x));
        } else {
            assert(seq![x].filter(f) == Seq::<TaskModel>::empty());
            assert(o2.filter(f) =~= a.filter(f) + b.filter(f));
        }
    }
    assert forall|i: int, j: int| 0 <= i <= j < o2.len() implies !completion_lt(
        o2[i].completed_at,
        o2[j].completed_at,
    ) by {
        if j < p {
        } else if i > p {
            assert(o2[i] == out[i - 1]);
            assert(o2[j] == out[j - 1]);
        } else if i == p {
            if j > p {
                assert(o2[j] == out[j - 1]);
                lemma_completion_total(out[j - 1].completed_at, x.completed_at);
            }
        } else {
            if j > p {
                assert(o2[j] == out[j - 1]);
                lemma_completion_trans(out[i].completed_at, x.completed_at, out[j - 1].completed_at);
                lemma_completion_total(out[j - 1].completed_at, x.completed_at);
            } else {
                assert(o2[j] == x);
            }
        }
    }
}

/// Sorts tasks newest completion first, keeping tasks with the same
/// completion in their order.
fn sort_newest_first(v: Vec<Task>) -> (out: Vec<Task>)
    ensures
        newest_first(task_models(out@), task_models(v@)),
{
    let ghost orig = task_models(v@);
    let n: usize = v.len();
    let mut rest = v;
    let mut out: Vec<Task> = Vec::new();
    let mut i: usize = 0;
    proof {
        assert(task_models(rest@) =~= orig.skip(0));
        reveal(Seq::filter);
        assert(task_models(out@) =~= Seq::<TaskModel>::empty());
        assert(orig.take(0) =~= Seq::<TaskModel>::empty());
    }
    while rest.len() > 0
        invariant
            i <= orig.len(),
            orig.len() == n,
            task_models(rest@) == orig.skip(i as int),
            newest_first(task_models(out@), orig.take(i as int)),
        decreases rest.len(),
    {
        let ghost before = rest@;
        let x = rest.remove(0);
        proof {
            assert(x == before[0]);
            assert(task_models(before)[0] == before[0]@);
            assert(task_models(before).len() == before.len());
            assert(orig.skip(i as int).len() > 0);
            assert(task_models(before)[0] == orig.skip(i as int)[0]);
            assert(orig.skip(i as int)[0] == orig[i as int]);
            assert(x@ == orig[i as int]);
            assert(task_models(rest@) =~= task_models(before).drop_first());
            assert(task_models(rest@) =~= orig.skip(i + 1));
        }
        let mut p: usize = 0;
        while p < out.len() && !completion_before(&out[p].completed_at, &x.completed_at)
            invariant
                p <= out.len(),
                forall|j: int|
                    0 <= j < p ==> !completion_lt(out@[j].completed_at, x.completed_at),
            decreases out.len() - p,
        {
            p += 1;
        }
        let ghost old_out = task_models(out@);
        proof {
            assert forall|j: int| p <= j < old_out.len() implies completion_lt(
                old_out[j].completed_at,
                x.completed_at,
            ) by {
                assert(completion_lt(old_out[p as int].completed_at, x.completed_at));
                lemma_completion_trans(old_out[j].completed_at, old_out[p as int].completed_at, x.completed_at);
                lemma_completion_total(old_out[j].completed_at, old_out[p as int].completed_at);
            }
            lemma_insert_newest(old_out, p as int, x@, orig.take(i as int));
            assert(orig.take(i + 1) =~= orig.take(i as int).push(x@));
        }
        out.insert(p, x);
        proof {
            assert(task_models(out@) =~= old_out.insert(p as int, x@));
        }
        i += 1;
    }
    proof {
        assert(orig.take(i as int) =~= orig);
    }
    out
}

// ---------------------------------------------------------------------
// The application state
// ---------------------------------------------------------------------

pub struct App {
    pub config: Config,
    pub tasks: Vec<Task>,
    pub projects: Vec<Project>,
    pub mode: Mode,
    pub focus: Focus,
    pub view: View,
    pub expanded: HashMap<i64, bool>,
    pub task_cursor: usize,
    pub sidebar_cursor: usize,
    pub input_buffer: String,
    pub edit_target: Option<EditTarget>,
    pub search_query: Option<String>,
    pub status_message: Option<String>,
    pub pomodoro: Option<Pomodoro>,
    pub pending_g: bool,
    pub pending_d: bool,
    pub should_quit: bool,
}

/// The test "the search text hits the task".
pub open spec fn query_test(q: Seq<char>) -> spec_fn(TaskModel) -> bool {
    |t: TaskModel| query_hits(t, q)
}

/// The test "has a completion time".
pub open spec fn completed_test() -> spec_fn(TaskModel) -> bool {
    |t: TaskModel| t.completed_at is Some
}

/// `s` narrowed to the tasks the search hits, when there is a search.
pub open spec fn searched(s: Seq<TaskModel>, q: Option<Seq<char>>) -> Seq<TaskModel> {
    match q {
        Some(q) => s.filter(query_test(q)),
        None => s,
    }
}

/// The filter of a view other than today and log.
pub open spec fn view_filter(v: ViewModel, q: Option<Seq<char>>, show_done: bool) -> FilterModel {
    let base = FilterModel {
        project_id: None,
        tag: None,
        status: None,
        priority: None,
        due_category: None,
        query: q,
        include_done: show_done,
    };
    match v {
        ViewModel::Done => FilterModel { status: Some(Status::Done), include_done: false, ..base },
        ViewModel::Project(pid) => FilterModel { project_id: Some(pid), ..base },
        ViewModel::Tag(t) => FilterModel { tag: Some(t), ..base },
        _ => base,
    }
}

impl App {
    /// What the state must keep: a pomodoro length that fits in seconds.
    pub open spec fn wf(self) -> bool {
        self.config.pomodoro.minutes * 60 <= u64::MAX
    }

    pub open spec fn query(self) -> Option<Seq<char>> {
        crate::filters::opt_text(self.search_query)
    }

    /// Whether `list` is the tasks the current view shows on `today`, in
    /// the order it shows them (before the tree is built).
    pub open spec fn shows(self, today: Date, list: Seq<TaskModel>) -> bool {
        let ts = task_models(self.tasks@);
        match self.view@ {
            ViewModel::Today => list == searched(ts.filter(today_test(today)), self.query()),
            ViewModel::Log => exists|sorted: Seq<TaskModel>|
                newest_first(sorted, ts.filter(completed_test())) && list == searched(
                    sorted,
                    self.query(),
                ),
            v => list == ts.filter(
                accepted_by(
                    view_filter(v, self.query(), self.config.ui.show_done_in_all),
                    today,
                    self.config.ui.week_days as int,
                ),
            ),
        }
    }

    /// Whether the view orders each level of its tree by id: every view but
    /// the log, which keeps its newest-first order.
    pub open spec fn sorts_by_id(self) -> bool {
        !(self.view@ is Log)
    }

    /// Whether `rows` are the rows the current view shows on `today`: its
    /// tasks built into a tree (each level by id, or in list order in the
    /// log) and flattened with the expanded states.
    pub open spec fn rows_ok(self, today: Date, rows: Seq<FlatRowModel>) -> bool {
        exists|list: Seq<TaskModel>, nodes: Seq<TaskNode>|
            self.shows(today, list) && grown_from(nodes, list, self.sorts_by_id()) && rows == flat_forest(
                nodes,
                0,
                self.expanded@,
            )
    }

    /// Today in the machine's local time zone.
    pub fn today_date(&self) -> Date {
        Date::local_today()
    }

    /// The tasks the current view shows, in order.
    pub fn view_tasks(&self, today: Date) -> (res: Vec<Task>)
        ensures
            self.shows(today, task_models(res@)),
    {
        let week_days: i64 = self.config.ui.week_days;
        let show_done = self.config.ui.show_done_in_all;
        let q = match &self.search_query {
            Some(q) => Some(copy_str(q.as_str())),
            None => None,
        };
        let ghost qm = self.query();
        proof {
            assert(crate::filters::opt_text(q) == qm);
        }
        match &self.view {
            View::Today => {
                let t = today_view(self.tasks.as_slice(), today);
                search_within(t, &self.search_query)
            },
            View::Log => {
                let done = completed_tasks(&self.tasks);
                let sorted = sort_newest_first(done);
                let ghost sm = task_models(sorted@);
                let res = search_within(sorted, &self.search_query);
                proof {
                    assert(newest_first(sm, task_models(self.tasks@).filter(completed_test())));
                    assert(task_models(res@) == searched(sm, self.query()));
                }
                res
            },
            View::Done => {
                let f = TaskFilter {
                    project_id: None,
                    tag: None,
                    status: Some(Status::Done),
                    priority: None,
                    due_category: None,
                    query: q,
                    include_done: false,
                };
                proof {
                    assert(f@ == view_filter(self.view@, qm, show_done));
                }
                apply(self.tasks.as_slice(), &f, today, week_days)
            },
            View::Project(pid) => {
                let f = TaskFilter {
                    project_id: Some(*pid),
                    tag: None,
                    status: None,
                    priority: None,
                    due_category: None,
                    query: q,
                    include_done: show_done,
                };
                proof {
                    assert(f@ == view_filter(self.view@, qm, show_done));
                }
                apply(self.tasks.as_slice(), &f, today, week_days)
            },
            View::Tag(tag) => {
                let f = TaskFilter {
                    project_id: None,
                    tag: Some(copy_str(tag.as_str())),
                    status: None,
                    priority: None,
                    due_category: None,
                    query: q,
                    include_done: show_done,
                };
                proof {
                    assert(f@ == view_filter(self.view@, qm, show_done));
                }
                apply(self.tasks.as_slice(), &f, today, week_days)
            },
            View::All => {
                let f = TaskFilter {
                    project_id: None,
                    tag: None,
                    status: None,
                    priority: None,
                    due_category: None,
                    query: q,
                    include_done: show_done,
                };
                proof {
                    assert(f@ == view_filter(self.view@, qm, show_done));
                }
                apply(self.tasks.as_slice(), &f, today, week_days)
            },
        }
    }

    /// The currently visible flat rows (after view + filter + search), on `today`.
    pub fn visible_rows_at(&self, today: Date) -> (res: Vec<FlatRow>)
        ensures
            self.rows_ok(today, row_models(res@)),
    {
        let tasks = self.view_tasks(today);
        let tree = match self.view {
            View::Log => build_tree_in_order(tasks.as_slice()),
            _ => build_tree(tasks.as_slice()),
        };
        let n: usize = tasks.len();
        proof {
            assert(task_models(tasks@).len() == n);
            assert forall|i: int| 0 <= i < tree@.len() implies crate::tree::depth_le(
                #[trigger] tree@[i],
                (usize::MAX + 1) as nat,
            ) by {
                lemma_depth_mono(
                    tree@[i],
                    (task_models(tasks@).len() + 1) as nat,
                    (usize::MAX + 1) as nat,
                );
            }
        }
        let rows = flatten_tree(tree.as_slice(), &self.expanded);
        proof {
            assert(self.shows(today, task_models(tasks@)));
            assert(grown_from(tree@, task_models(tasks@), self.sorts_by_id()));
        }
        rows
    }

    /// The currently visible flat rows, today.
    pub fn visible_rows(&self) -> (res: Vec<FlatRow>)
        ensures
            exists|today: Date| self.rows_ok(today, row_models(res@)),
    {
        let today = self.today_date();
        self.visible_rows_at(today)
    }

    /// Whether `sel` is the task under the cursor on `today` (`None` when the
    /// cursor is past the rows).
    pub open spec fn selected_is(self, today: Date, sel: Option<TaskModel>) -> bool {
        exists|rows: Seq<FlatRowModel>|
            self.rows_ok(today, rows) && match sel {
                Some(t) => self.task_cursor < rows.len() && t == rows[self.task_cursor as int].task,
                None => self.task_cursor >= rows.len(),
            }
    }

    /// The task under the cursor on `today`, if the cursor is on a row.
    pub fn selected_task_at(&self, today: Date) -> (res: Option<Task>)
        ensures
            self.selected_is(today, opt_model(res)),
    {
        let rows = self.visible_rows_at(today);
        if self.task_cursor < rows.len() {
            Some(rows[self.task_cursor].task.clone())
        } else {
            None
        }
    }

    /// The task under the cursor, today.
    pub fn selected_task(&self) -> (res: Option<Task>)
        ensures
            exists|today: Date| self.selected_is(today, opt_model(res)),
    {
        let today = self.today_date();
        self.selected_task_at(today)
    }
}

impl App {
    /// `b` is this state with the task cursor moved onto the last row shown
    /// on `today` when it is past it.
    pub open spec fn normalized(self, today: Date, b: App) -> bool {
        exists|rows: Seq<FlatRowModel>|
            self.rows_ok(today, rows) && b == (App {
                task_cursor: clamp_cursor(self.task_cursor as int, rows.len() as int) as usize,
                ..self
            })
    }
}

/// The tasks a view shows are fixed by the state and the date.
pub proof fn lemma_shows_unique(a: App, today: Date, l1: Seq<TaskModel>, l2: Seq<TaskModel>)
    requires
        a.shows(today, l1),
        a.shows(today, l2),
    ensures
        l1 == l2,
{
    if a.view@ == ViewModel::Log {
        let ts = task_models(a.tasks@);
        let inp = ts.filter(completed_test());
        let s1 = choose|s: Seq<TaskModel>| newest_first(s, inp) && l1 == searched(s, a.query());
        let s2 = choose|s: Seq<TaskModel>| newest_first(s, inp) && l2 == searched(s, a.query());
        assert forall|c: Option<Timestamp>| #[trigger] s1.filter(completed_is(c)) == s2.filter(
            completed_is(c),
        ) by {
            assert(inp.filter(completed_is(c)) == s1.filter(completed_is(c)));
            assert(inp.filter(completed_is(c)) == s2.filter(completed_is(c)));
        }
        lemma_newest_first_same(s1, s2);
    }
}

/// The rows a view shows are fixed by the state and the date.
pub proof fn lemma_rows_unique(a: App, today: Date, r1: Seq<FlatRowModel>, r2: Seq<FlatRowModel>)
    requires
        a.rows_ok(today, r1),
        a.rows_ok(today, r2),
    ensures
        r1 == r2,
{
    let (l1, n1) = choose|l: Seq<TaskModel>, n: Seq<TaskNode>|
        a.shows(today, l) && grown_from(n, l, a.sorts_by_id()) && r1 == flat_forest(n, 0, a.expanded@);
    let (l2, n2) = choose|l: Seq<TaskModel>, n: Seq<TaskNode>|
        a.shows(today, l) && grown_from(n, l, a.sorts_by_id()) && r2 == flat_forest(n, 0, a.expanded@);
    lemma_shows_unique(a, today, l1, l2);
    law_rows_fixed_by_tasks(n1, n2, l1, a.sorts_by_id(), a.expanded@);
}

/// Whether `b` shows what `a` shows: same tasks, view, search,
/// configuration and expanded states.
pub open spec fn same_rows_source(a: App, b: App) -> bool {
    &&& a.tasks == b.tasks
    &&& a.view == b.view
    &&& a.search_query == b.search_query
    &&& a.config == b.config
    &&& a.expanded@ == b.expanded@
}

pub proof fn lemma_same_rows(a: App, b: App, today: Date)
    requires
        same_rows_source(a, b),
    ensures
        forall|rows: Seq<FlatRowModel>| #[trigger] a.rows_ok(today, rows) == b.rows_ok(today, rows),
        forall|l: Seq<TaskModel>| #[trigger] a.shows(today, l) == b.shows(today, l),
{
    assert forall|l: Seq<TaskModel>| #[trigger] a.shows(today, l) == b.shows(today, l) by {}
    assert(a.view@ == b.view@);
    assert(a.sorts_by_id() == b.sorts_by_id());
}

/// `lemma_rows_unique` for every two row sequences.
pub proof fn lemma_rows_unique_all(a: App, today: Date)
    ensures
        forall|r1: Seq<FlatRowModel>, r2: Seq<FlatRowModel>|
            #[trigger] a.rows_ok(today, r1) && #[trigger] a.rows_ok(today, r2) ==> r1 == r2,
{
    assert forall|r1: Seq<FlatRowModel>, r2: Seq<FlatRowModel>|
        #[trigger] a.rows_ok(today, r1) && #[trigger] a.rows_ok(today, r2) implies r1 == r2 by {
        lemma_rows_unique(a, today, r1, r2);
    }
}

impl App {
    /// Whether the task cursor is on a row of what the view shows on
    /// `today`, or 0 when no row is shown.
    pub open spec fn cursor_on_a_row(self, today: Date) -> bool {
        forall|rows: Seq<FlatRowModel>|
            self.rows_ok(today, rows) ==> if rows.len() == 0 {
                self.task_cursor == 0
            } else {
                self.task_cursor < rows.len()
            }
    }
}

/// Every task of a search result is hit by the search, and is one of the
/// tasks searched.
proof fn lemma_searched_from(s: Seq<TaskModel>, q: Option<Seq<char>>, k: int)
    requires
        0 <= k < searched(s, q).len(),
    ensures
        s.contains(searched(s, q)[k]),
        q matches Some(x) ==> query_hits(searched(s, q)[k], x),
{
    if let Some(x) = q {
        s.lemma_filter_pred(query_test(x), k);
        assert(s.filter(query_test(x)).contains(searched(s, q)[k]));
        s.lemma_filter_contains_rev(query_test(x), searched(s, q)[k]);
    } else {
        assert(s[k] == searched(s, q)[k]);
    }
}

/// Each view shows what it names: Today only open tasks that are overdue,
/// due today or in progress; Done only done tasks; Log only completed
/// tasks; a project view only that project's tasks and a tag view only
/// tasks with that tag; All, project and tag views no done task unless
/// `show_done_in_all` is set. With a search, every task shown is hit by it.
pub proof fn law_views_show_what_they_name(a: App, today: Date, list: Seq<TaskModel>, k: int)
    requires
        a.shows(today, list),
        0 <= k < list.len(),
    ensures
        match a.view@ {
            ViewModel::Today => crate::filters::in_today_view(list[k], today),
            ViewModel::Done => list[k].done(),
            ViewModel::Log => list[k].completed_at is Some,
            ViewModel::Project(pid) => list[k].project_id == Some(pid) && (
            !a.config.ui.show_done_in_all ==> !list[k].done()),
            ViewModel::Tag(tag) => list[k].tags.contains(tag) && (!a.config.ui.show_done_in_all
                ==> !list[k].done()),
            ViewModel::All => !a.config.ui.show_done_in_all ==> !list[k].done(),
        },
        a.query() matches Some(q) ==> query_hits(list[k], q),
{
    let ts = task_models(a.tasks@);
    let t = list[k];
    match a.view@ {
        ViewModel::Today => {
            let s = ts.filter(today_test(today));
            lemma_searched_from(s, a.query(), k);
            let i = choose|i: int| 0 <= i < s.len() && s[i] == t;
            ts.lemma_filter_pred(today_test(today), i);
        },
        ViewModel::Log => {
            let sorted = choose|sorted: Seq<TaskModel>|
                newest_first(sorted, ts.filter(completed_test())) && list == searched(
                    sorted,
                    a.query(),
                );
            lemma_searched_from(sorted, a.query(), k);
            let c = t.completed_at;
            let i = choose|i: int| 0 <= i < sorted.len() && sorted[i] == t;
            sorted.lemma_filter_contains(completed_is(c), i);
            let inp = ts.filter(completed_test());
            assert(inp.filter(completed_is(c)) == sorted.filter(completed_is(c)));
            inp.lemma_filter_contains_rev(completed_is(c), t);
            let j = choose|j: int| 0 <= j < inp.len() && inp[j] == t;
            ts.lemma_filter_pred(completed_test(), j);
        },
        v => {
            let f = view_filter(v, a.query(), a.config.ui.show_done_in_all);
            ts.lemma_filter_pred(accepted_by(f, today, a.config.ui.week_days as int), k);
            assert(crate::filters::accepts(f, t, today, a.config.ui.week_days as int));
        },
    }
}

/// The log view lists its completed tasks newest first, with a search too,
/// and its rows keep that order: where none of those tasks is the parent of
/// another, the rows are exactly those tasks, each at the top level, newest
/// first.
pub proof fn law_log_newest_first(a: App, today: Date, list: Seq<TaskModel>, rows: Seq<FlatRowModel>)
    requires
        a.view@ is Log,
        a.shows(today, list),
        a.rows_ok(today, rows),
    ensures
        forall|i: int, j: int|
            0 <= i < j < list.len() ==> !completion_lt(list[i].completed_at, list[j].completed_at),
        crate::tree::all_roots(list) ==> {
            &&& rows.len() == list.len()
            &&& forall|i: int|
                0 <= i < rows.len() ==> (#[trigger] rows[i]).task == list[i] && rows[i].depth == 0
            &&& forall|i: int, j: int|
                0 <= i < j < rows.len() ==> !completion_lt(
                    rows[i].task.completed_at,
                    rows[j].task.completed_at,
                )
        },
{
    let ts = task_models(a.tasks@);
    let sorted = choose|sorted: Seq<TaskModel>|
        newest_first(sorted, ts.filter(completed_test())) && list == searched(sorted, a.query());
    let r = |x: TaskModel, y: TaskModel| !completion_lt(x.completed_at, y.completed_at);
    assert forall|i: int, j: int| 0 <= i < j < sorted.len() implies r(sorted[i], sorted[j]) by {}
    if let Some(q) = a.query() {
        crate::tree::lemma_filter_keeps_order(sorted, query_test(q), r);
    }
    let (l, n) = choose|l: Seq<TaskModel>, n: Seq<TaskNode>|
        a.shows(today, l) && grown_from(n, l, a.sorts_by_id()) && rows == flat_forest(n, 0, a.expanded@);
    lemma_shows_unique(a, today, l, list);
    if crate::tree::all_roots(list) {
        crate::tree::law_in_order_roots_keep_order(n, list, a.expanded@);
        assert forall|i: int, j: int| 0 <= i < j < rows.len() implies !completion_lt(
            rows[i].task.completed_at,
            rows[j].task.completed_at,
        ) by {
            assert(rows[i].task == list[i]);
            assert(rows[j].task == list[j]);
        }
    }
}

/// Enter on the task row under the cursor, one with children, flips whether
/// its task is expanded and changes nothing else; the row under the cursor
/// is then the same task, still with children.
proof fn lemma_enter_toggles(a: App, today: Date, rows: Seq<FlatRowModel>, b: App, brows: Seq<FlatRowModel>)
    requires
        a.focus == Focus::Tasks,
        a.rows_ok(today, rows),
        a.task_cursor < rows.len(),
        rows[a.task_cursor as int].has_children,
        a.entered(today, b),
    ensures
        b == (App { expanded: b.expanded, ..a }),
        b.expanded@ == a.expanded@.insert(
            rows[a.task_cursor as int].task.id,
            !crate::tree::expanded_in(a.expanded@, rows[a.task_cursor as int].task.id),
        ),
        b.rows_ok(today, brows) ==> {
            &&& b.task_cursor < brows.len()
            &&& brows[b.task_cursor as int].task == rows[a.task_cursor as int].task
            &&& brows[b.task_cursor as int].has_children
        },
{
    let c = a.task_cursor as int;
    let w = choose|r: Seq<FlatRowModel>|
        a.rows_ok(today, r) && if a.task_cursor < r.len() {
            let row = r[a.task_cursor as int];
            if row.has_children {
                &&& b == (App { expanded: b.expanded, ..a })
                &&& b.expanded@ == a.expanded@.insert(
                    row.task.id,
                    !crate::tree::expanded_in(a.expanded@, row.task.id),
                )
            } else {
                b == (App { focus: Focus::Details, ..a })
            }
        } else {
            b == a
        };
    lemma_rows_unique(a, today, w, rows);
    let id = rows[c].task.id;
    let v = !crate::tree::expanded_in(a.expanded@, id);
    let (la, na) = choose|l: Seq<TaskModel>, n: Seq<TaskNode>|
        a.shows(today, l) && grown_from(n, l, a.sorts_by_id()) && rows == flat_forest(n, 0, a.expanded@);
    if b.rows_ok(today, brows) {
        let (lb, nb) = choose|l: Seq<TaskModel>, n: Seq<TaskNode>|
            b.shows(today, l) && grown_from(n, l, b.sorts_by_id()) && brows == flat_forest(
                n,
                0,
                b.expanded@,
            );
        assert(a.shows(today, lb));
        lemma_shows_unique(a, today, lb, la);
        law_rows_fixed_by_tasks(nb, na, la, a.sorts_by_id(), b.expanded@);
        crate::tree::law_toggle_keeps_cursor_on_a_row(na, la, a.sorts_by_id(), a.expanded@, c, v);
        assert(crate::tree::same_row_shape(brows[c], rows[c]));
    }
}

/// Enter on a task row with children flips whether its task is expanded
/// and changes nothing else; the cursor stays on that row, so a second
/// Enter flips it back and every task is then expanded or collapsed as
/// before.
pub proof fn law_enter_twice_restores(
    a: App,
    b: App,
    c: App,
    today: Date,
    rows: Seq<FlatRowModel>,
)
    requires
        a.focus == Focus::Tasks,
        a.rows_ok(today, rows),
        a.task_cursor < rows.len(),
        rows[a.task_cursor as int].has_children,
        a.entered(today, b),
        b.entered(today, c),
    ensures
        crate::tree::expanded_in(b.expanded@, rows[a.task_cursor as int].task.id) == !crate::tree::expanded_in(
            a.expanded@,
            rows[a.task_cursor as int].task.id,
        ),
        b == (App { expanded: b.expanded, ..a }),
        forall|x: i64| crate::tree::expanded_in(c.expanded@, x) == crate::tree::expanded_in(a.expanded@, x),
        c == (App { expanded: c.expanded, ..a }),
{
    let id = rows[a.task_cursor as int].task.id;
    lemma_enter_toggles(a, today, rows, b, rows);
    let bw = choose|r: Seq<FlatRowModel>|
        b.rows_ok(today, r) && if b.task_cursor < r.len() {
            let row = r[b.task_cursor as int];
            if row.has_children {
                &&& c == (App { expanded: c.expanded, ..b })
                &&& c.expanded@ == b.expanded@.insert(
                    row.task.id,
                    !crate::tree::expanded_in(b.expanded@, row.task.id),
                )
            } else {
                c == (App { focus: Focus::Details, ..b })
            }
        } else {
            c == b
        };
    lemma_enter_toggles(a, today, rows, b, bw);
    assert(bw[b.task_cursor as int].task.id == id);
    assert forall|x: i64| crate::tree::expanded_in(c.expanded@, x) == crate::tree::expanded_in(
        a.expanded@,
        x,
    ) by {
        if x != id {
            assert(c.expanded@.contains_key(x) == a.expanded@.contains_key(x));
        }
    }
}

/// The cursor moved onto the last of `n` rows when past it (0 without rows).
pub open spec fn clamp_cursor(c: int, n: int) -> int {
    if n == 0 {
        0
    } else if c >= n {
        n - 1
    } else {
        c
    }
}

/// `list` narrowed to the tasks the search `q` hits, if any.
fn search_within(list: Vec<Task>, q: &Option<String>) -> (res: Vec<Task>)
    ensures
        task_models(res@) == searched(task_models(list@), crate::filters::opt_text(*q)),
{
    match q {
        None => list,
        Some(q) => {
            let ql = chars_of(to_lowercase(q.as_str()).as_str());
            let ghost ts = task_models(list@);
            let ghost p = query_test(q@);
            let mut out: Vec<Task> = Vec::new();
            let mut i: usize = 0;
            proof {
                reveal(Seq::filter);
                assert(task_models(out@) =~= ts.take(0).filter(p));
            }
            while i < list.len()
                invariant
                    i <= list.len(),
                    ts == task_models(list@),
                    p == query_test(q@),
                    ql@ == lowercased(q@),
                    task_models(out@) == ts.take(i as int).filter(p),
                decreases list.len() - i,
            {
                proof {
                    assert(ts.take(i + 1) =~= ts.take(i as int).push(ts[i as int]));
                    lemma_filter_push(ts.take(i as int), ts[i as int], p);
                }
                if query_matches(&list[i], &ql) {
                    out.push(list[i].clone());
                    proof {
                        assert(task_models(out@) =~= ts.take(i as int).filter(p).push(ts[i as int]));
                    }
                }
                i += 1;
            }
            proof {
                assert(ts.take(i as int) =~= ts);
            }
            out
        },
    }
}

/// The tasks with a completion time, in order.
fn completed_tasks(tasks: &Vec<Task>) -> (res: Vec<Task>)
    ensures
        task_models(res@) == task_models(tasks@).filter(completed_test()),
{
    let ghost ts = task_models(tasks@);
    let ghost p = completed_test();
    let mut out: Vec<Task> = Vec::new();
    let mut i: usize = 0;
    proof {
        reveal(Seq::filter);
        assert(task_models(out@) =~= ts.take(0).filter(p));
    }
    while i < tasks.len()
        invariant
            i <= tasks.len(),
            ts == task_models(tasks@),
            p == completed_test(),
            task_models(out@) == ts.take(i as int).filter(p),
        decreases tasks.len() - i,
    {
        proof {
            assert(ts.take(i + 1) =~= ts.take(i as int).push(ts[i as int]));
            lemma_filter_push(ts.take(i as int), ts[i as int], p);
        }
        if tasks[i].completed_at.is_some() {
            out.push(tasks[i].clone());
            proof {
                assert(task_models(out@) =~= ts.take(i as int).filter(p).push(ts[i as int]));
            }
        }
        i += 1;
    }
    proof {
        assert(ts.take(i as int) =~= ts);
    }
    out
}

/// The position of the first `x` in `s`, if any.
pub open spec fn first_index_of(s: Seq<int>, x: int) -> Option<int>
    decreases s.len(),
{
    if s.len() == 0 {
        None
    } else if s[0] == x {
        Some(0)
    } else {
        match first_index_of(s.drop_first(), x) {
            Some(k) => Some(k + 1),
            None => None,
        }
    }
}

proof fn lemma_first_index_bound(s: Seq<int>, x: int)
    ensures
        first_index_of(s, x) matches Some(k) ==> 0 <= k < s.len(),
    decreases s.len(),
{
    if s.len() > 0 {
        lemma_first_index_bound(s.drop_first(), x);
    }
}

/// Where the sidebar cursor lands after moving by `delta` selectable rows,
/// wrapping around.
pub open spec fn sidebar_moved(sel: Seq<int>, cursor: int, delta: int) -> int {
    let pos = match first_index_of(sel, cursor) {
        Some(k) => k,
        None => 0,
    };
    sel[(pos + delta) % (sel.len() as int)]
}

impl App {
    pub fn sidebar_items(&self) -> (res: Vec<SidebarItem>)
        ensures
            sidebar_models(res@) == sidebar_spec(self.projects@, strings_view(self.config.tags.default@)),
    {
        let mut items: Vec<SidebarItem> = vec![
            SidebarItem::SectionHeader("Views"),
            SidebarItem::View(View::All),
            SidebarItem::View(View::Today),
            SidebarItem::View(View::Done),
            SidebarItem::View(View::Log),
        ];
        let ghost fixed = sidebar_models(items@);
        let ghost pm = self.projects@.map_values(|p: Project| SidebarModel::Project(p.id, p.name@));
        let ghost tg = strings_view(self.config.tags.default@);
        let ghost tm = tg.map_values(|t: Seq<char>| SidebarModel::Tag(t));
        if self.projects.len() > 0 {
            items.push(SidebarItem::SectionHeader("Projects"));
            let mut i: usize = 0;
            while i < self.projects.len()
                invariant
                    i <= self.projects.len(),
                    pm == self.projects@.map_values(|p: Project| SidebarModel::Project(p.id, p.name@)),
                    sidebar_models(items@) == fixed + seq![SidebarModel::SectionHeader("Projects"@)]
                        + pm.take(i as int),
                decreases self.projects.len() - i,
            {
                let p = self.projects[i].clone();
                let ghost before = sidebar_models(items@);
                let ghost m = SidebarModel::Project(p.id, p.name@);
                items.push(SidebarItem::Project(p));
                proof {
                    assert(sidebar_models(items@) =~= before.push(m));
                    assert(pm[i as int] == m);
                    assert(pm.take(i + 1) =~= pm.take(i as int).push(pm[i as int]));
                    assert(sidebar_models(items@) =~= fixed + seq![SidebarModel::SectionHeader("Projects"@)]
                        + pm.take(i + 1));
                }
                i += 1;
            }
            proof {
                assert(pm.take(i as int) =~= pm);
            }
        }
        let ghost mid = sidebar_models(items@);
        if self.config.tags.default.len() > 0 {
            items.push(SidebarItem::SectionHeader("Tags"));
            let mut i: usize = 0;
            while i < self.config.tags.default.len()
                invariant
                    i <= self.config.tags.default.len(),
                    tg == strings_view(self.config.tags.default@),
                    tm == tg.map_values(|t: Seq<char>| SidebarModel::Tag(t)),
                    sidebar_models(items@) == mid + seq![SidebarModel::SectionHeader("Tags"@)] + tm.take(
                        i as int,
                    ),
                decreases self.config.tags.default.len() - i,
            {
                let t = copy_str(self.config.tags.default[i].as_str());
                let ghost before = sidebar_models(items@);
                let ghost m = SidebarModel::Tag(t@);
                items.push(SidebarItem::Tag(t));
                proof {
                    assert(sidebar_models(items@) =~= before.push(m));
                    assert(tg[i as int] == self.config.tags.default@[i as int]@);
                    assert(tm[i as int] == m);
                    assert(tm.take(i + 1) =~= tm.take(i as int).push(tm[i as int]));
                    assert(sidebar_models(items@) =~= mid + seq![SidebarModel::SectionHeader("Tags"@)]
                        + tm.take(i + 1));
                }
                i += 1;
            }
            proof {
                assert(tm.take(i as int) =~= tm);
            }
        }
        proof {
            assert(fixed =~= seq![
                SidebarModel::SectionHeader("Views"@),
                SidebarModel::View(ViewModel::All),
                SidebarModel::View(ViewModel::Today),
                SidebarModel::View(ViewModel::Done),
                SidebarModel::View(ViewModel::Log),
            ]);
            assert(sidebar_models(items@) =~= sidebar_spec(self.projects@, tg));
        }
        items
    }

    /// Selectable sidebar indices (skip section headers).
    pub fn sidebar_selectable_indices(&self) -> (res: Vec<usize>)
        ensures
            res@.len() == selectable_of(
                sidebar_spec(self.projects@, strings_view(self.config.tags.default@)),
            ).len(),
            forall|k: int|
                0 <= k < res@.len() ==> res@[k] as int == #[trigger] selectable_of(
                    sidebar_spec(self.projects@, strings_view(self.config.tags.default@)),
                )[k],
    {
        let items = self.sidebar_items();
        let ghost im = sidebar_models(items@);
        let mut out: Vec<usize> = Vec::new();
        let mut i: usize = 0;
        while i < items.len()
            invariant
                i <= items.len(),
                im == sidebar_models(items@),
                out@.len() == selectable_of(im.take(i as int)).len(),
                forall|k: int|
                    0 <= k < out@.len() ==> out@[k] as int == #[trigger] selectable_of(
                        im.take(i as int),
                    )[k],
            decreases items.len() - i,
        {
            proof {
                assert(im.take(i + 1).drop_last() =~= im.take(i as int));
            }
            match &items[i] {
                SidebarItem::SectionHeader(_) => {},
                _ => {
                    out.push(i);
                },
            }
            i += 1;
        }
        proof {
            assert(im.take(i as int) =~= im);
        }
        out
    }

    /// Moves the cursor onto the last row when it is past it.
    pub(crate) fn normalize_cursor(&mut self, today: Date)
        ensures
            old(self).normalized(today, *final(self)),
            *final(self) == (App { task_cursor: final(self).task_cursor, ..*old(self) }),
    {
        let n: usize = self.visible_rows_at(today).len();
        if n == 0 {
            self.task_cursor = 0;
        } else if self.task_cursor >= n {
            self.task_cursor = n - 1;
        }
    }

    pub(crate) fn sidebar_move(&mut self, delta: i32)
        requires
            delta == 1 || delta == -1,
        ensures
            *final(self) == (App {
                sidebar_cursor: sidebar_moved(
                    selectable_of(
                        sidebar_spec(old(self).projects@, strings_view(old(self).config.tags.default@)),
                    ),
                    old(self).sidebar_cursor as int,
                    delta as int,
                ) as usize,
                ..*old(self)
            }),
    {
        let sel = self.sidebar_selectable_indices();
        let ghost ss = selectable_of(sidebar_spec(self.projects@, strings_view(self.config.tags.default@)));
        proof {
            reveal_strlit("Views");
            assert(sidebar_spec(self.projects@, strings_view(self.config.tags.default@))[1] is View);
            lemma_selectable_has_views(self.projects@, strings_view(self.config.tags.default@));
        }
        let mut k: usize = 0;
        proof {
            assert(ss.skip(0) =~= ss);
        }
        while k < sel.len() && sel[k] != self.sidebar_cursor
            invariant
                k <= sel.len(),
                sel@.len() == ss.len(),
                forall|j: int| 0 <= j < sel@.len() ==> sel@[j] as int == #[trigger] ss[j],
                first_index_of(ss.skip(k as int), self.sidebar_cursor as int) matches Some(r) ==> (
                first_index_of(ss, self.sidebar_cursor as int) == Some(r + k)),
                first_index_of(ss.skip(k as int), self.sidebar_cursor as int) is None ==> (
                first_index_of(ss, self.sidebar_cursor as int) is None),
            decreases sel.len() - k,
        {
            proof {
                assert(ss.skip(k as int)[0] == ss[k as int]);
                assert(ss.skip(k as int).drop_first() =~= ss.skip(k + 1));
            }
            k += 1;
        }
        let pos: usize = if k < sel.len() {
            k
        } else {
            0
        };
        proof {
            if k < sel.len() {
                assert(ss.skip(k as int)[0] == ss[k as int]);
            } else {
                assert(ss.skip(k as int) =~= Seq::<int>::empty());
            }
            assert(pos as int == match first_index_of(ss, self.sidebar_cursor as int) {
                Some(r) => r,
                None => 0,
            });
            lemma_first_index_bound(ss, self.sidebar_cursor as int);
        }
        let len: usize = sel.len();
        let new_pos = if delta > 0 {
            if pos + 1 == len {
                0
            } else {
                pos + 1
            }
        } else {
            if pos == 0 {
                len - 1
            } else {
                pos - 1
            }
        };
        proof {
            let l = len as int;
            let p = pos as int;
            if delta > 0 {
                if p + 1 == l {
                    vstd::arithmetic::div_mod::lemma_mod_self_0(l);
                } else {
                    vstd::arithmetic::div_mod::lemma_small_mod((p + 1) as nat, l as nat);
                }
            } else {
                if p == 0 {
                    vstd::arithmetic::div_mod::lemma_fundamental_div_mod_converse(-1, l, -1, l - 1);
                } else {
                    vstd::arithmetic::div_mod::lemma_small_mod((p - 1) as nat, l as nat);
                }
            }
            assert(new_pos as int == (p + delta) % l);
        }
        self.sidebar_cursor = sel[new_pos];
    }
}

proof fn lemma_selectable_has_views(projects: Seq<Project>, tags: Seq<Seq<char>>)
    ensures
        selectable_of(sidebar_spec(projects, tags)).len() >= 4,
        selectable_of(sidebar_spec(projects, tags)).len() <= sidebar_spec(projects, tags).len(),
        sidebar_spec(projects, tags).len() == 5 + (if projects.len() > 0 {
            projects.len() + 1
        } else {
            0
        }) + (if tags.len() > 0 {
            tags.len() + 1
        } else {
            0
        }),
{
    let items = sidebar_spec(projects, tags);
    lemma_selectable_bounds(items);
    lemma_selectable_prefix(items, 5);
    let five = items.take(5);
    reveal_with_fuel(selectable_of, 6);
    assert(five[1] is View && five[2] is View && five[3] is View && five[4] is View);
    assert(five.take(4).drop_last() =~= five.take(3));
    assert(five.drop_last() =~= five.take(4));
    assert(five.take(4).take(3).drop_last() =~= five.take(2));
    assert(five.take(2).drop_last() =~= five.take(1));
    assert(five.take(1).drop_last() =~= five.take(0));
    assert(five.take(4).take(3) =~= five.take(3));
    assert(five.take(3).drop_last() =~= five.take(2));
    assert(selectable_of(five).len() == 4);
}

proof fn lemma_selectable_increasing(items: Seq<SidebarModel>)
    ensures
        forall|i: int, j: int|
            0 <= i < j < selectable_of(items).len() ==> selectable_of(items)[i] < selectable_of(items)[j],
    decreases items.len(),
{
    if items.len() > 0 {
        lemma_selectable_increasing(items.drop_last());
        lemma_selectable_bounds(items.drop_last());
    }
}

proof fn lemma_first_index_increasing(s: Seq<int>, q: int)
    requires
        0 <= q < s.len(),
        forall|i: int, j: int| 0 <= i < j < s.len() ==> s[i] < s[j],
    ensures
        first_index_of(s, s[q]) == Some(q),
    decreases q,
{
    if q > 0 {
        assert(s.drop_first()[q - 1] == s[q]);
        lemma_first_index_increasing(s.drop_first(), q - 1);
    }
}

proof fn lemma_step_mod(p: int, n: int)
    requires
        0 <= p < n,
    ensures
        0 <= (p + 1) % n < n,
        ((p + 1) % n - 1) % n == p,
        0 <= (p - 1) % n < n,
        ((p - 1) % n + 1) % n == p,
{
    if p + 1 < n {
        vstd::arithmetic::div_mod::lemma_small_mod((p + 1) as nat, n as nat);
        vstd::arithmetic::div_mod::lemma_small_mod(p as nat, n as nat);
    } else {
        vstd::arithmetic::div_mod::lemma_mod_self_0(n);
        vstd::arithmetic::div_mod::lemma_fundamental_div_mod_converse(-1, n, -1, n - 1);
    }
    if p > 0 {
        vstd::arithmetic::div_mod::lemma_small_mod((p - 1) as nat, n as nat);
        vstd::arithmetic::div_mod::lemma_small_mod(p as nat, n as nat);
    } else {
        vstd::arithmetic::div_mod::lemma_fundamental_div_mod_converse(-1, n, -1, n - 1);
        vstd::arithmetic::div_mod::lemma_mod_self_0(n);
    }
}

/// In the sidebar, moving down and then up (or up and then down) comes back
/// to the same entry, wrapping around at either end.
pub proof fn law_sidebar_down_then_up(a: App)
    requires
        a.selectable().contains(a.sidebar_cursor as int),
    ensures
        sidebar_moved(a.selectable(), sidebar_moved(a.selectable(), a.sidebar_cursor as int, 1), -1)
            == a.sidebar_cursor,
        sidebar_moved(a.selectable(), sidebar_moved(a.selectable(), a.sidebar_cursor as int, -1), 1)
            == a.sidebar_cursor,
{
    let sel = a.selectable();
    let c = a.sidebar_cursor as int;
    let n = sel.len() as int;
    lemma_selectable_increasing(sidebar_spec(a.projects@, strings_view(a.config.tags.default@)));
    let p = choose|p: int| 0 <= p < sel.len() && sel[p] == c;
    lemma_first_index_increasing(sel, p);
    lemma_step_mod(p, n);
    let q = (p + 1) % n;
    lemma_first_index_increasing(sel, q);
    let r = (p - 1) % n;
    lemma_first_index_increasing(sel, r);
}

proof fn lemma_selectable_prefix(items: Seq<SidebarModel>, n: int)
    requires
        0 <= n <= items.len(),
    ensures
        selectable_of(items).len() >= selectable_of(items.take(n)).len(),
    decreases items.len(),
{
    if n < items.len() {
        assert(items.drop_last().take(n) =~= items.take(n));
        lemma_selectable_prefix(items.drop_last(), n);
    } else {
        assert(items.take(n) =~= items);
    }
}

impl App {
    /// `b` is this state after moving down one row (or one sidebar entry).
    pub open spec fn moved_down(self, today: Date, b: App) -> bool {
        match self.focus {
            Focus::Tasks => exists|rows: Seq<FlatRowModel>|
                self.rows_ok(today, rows) && b == (App {
                    task_cursor: if self.task_cursor + 1 < rows.len() {
                        (self.task_cursor + 1) as usize
                    } else {
                        self.task_cursor
                    },
                    ..self
                }),
            Focus::Sidebar => b == (App {
                sidebar_cursor: sidebar_moved(
                    self.selectable(),
                    self.sidebar_cursor as int,
                    1,
                ) as usize,
                ..self
            }),
            Focus::Details => b == self,
        }
    }

    /// `b` is this state after moving up one row (or one sidebar entry).
    pub open spec fn moved_up(self, b: App) -> bool {
        match self.focus {
            Focus::Tasks => b == (App {
                task_cursor: if self.task_cursor > 0 {
                    (self.task_cursor - 1) as usize
                } else {
                    0
                },
                ..self
            }),
            Focus::Sidebar => b == (App {
                sidebar_cursor: sidebar_moved(
                    self.selectable(),
                    self.sidebar_cursor as int,
                    -1,
                ) as usize,
                ..self
            }),
            Focus::Details => b == self,
        }
    }

    /// `b` is this state after `h`: collapse the row, or move one pane left.
    pub open spec fn moved_left(self, today: Date, b: App) -> bool {
        match self.focus {
            Focus::Tasks => exists|rows: Seq<FlatRowModel>|
                self.rows_ok(today, rows) && if self.task_cursor < rows.len()
                    && rows[self.task_cursor as int].has_children
                    && rows[self.task_cursor as int].expanded {
                    &&& b == (App { expanded: b.expanded, ..self })
                    &&& b.expanded@ == self.expanded@.insert(
                        rows[self.task_cursor as int].task.id,
                        false,
                    )
                } else {
                    b == (App { focus: Focus::Sidebar, ..self })
                },
            Focus::Details => b == (App { focus: Focus::Tasks, ..self }),
            Focus::Sidebar => b == self,
        }
    }

    /// `b` is this state after `l`: expand the row, or move one pane right.
    pub open spec fn moved_right(self, today: Date, b: App) -> bool {
        match self.focus {
            Focus::Tasks => exists|rows: Seq<FlatRowModel>|
                self.rows_ok(today, rows) && if self.task_cursor < rows.len()
                    && rows[self.task_cursor as int].has_children
                    && !rows[self.task_cursor as int].expanded {
                    &&& b == (App { expanded: b.expanded, ..self })
                    &&& b.expanded@ == self.expanded@.insert(
                        rows[self.task_cursor as int].task.id,
                        true,
                    )
                } else {
                    b == (App { focus: Focus::Details, ..self })
                },
            Focus::Sidebar => b == (App { focus: Focus::Tasks, ..self }),
            Focus::Details => b == self,
        }
    }

    /// `b` is this state with the cursor on the first row.
    pub open spec fn went_top(self, b: App) -> bool {
        match self.focus {
            Focus::Tasks => b == (App { task_cursor: 0, ..self }),
            Focus::Sidebar => b == (if self.selectable().len() > 0 {
                App { sidebar_cursor: self.selectable()[0] as usize, ..self }
            } else {
                self
            }),
            Focus::Details => b == self,
        }
    }

    /// `b` is this state with the cursor on the last row.
    pub open spec fn went_bottom(self, today: Date, b: App) -> bool {
        match self.focus {
            Focus::Tasks => exists|rows: Seq<FlatRowModel>|
                self.rows_ok(today, rows) && b == (if rows.len() > 0 {
                    App { task_cursor: (rows.len() - 1) as usize, ..self }
                } else {
                    self
                }),
            Focus::Sidebar => b == (if self.selectable().len() > 0 {
                App {
                    sidebar_cursor: self.selectable()[self.selectable().len() - 1] as usize,
                    ..self
                }
            } else {
                self
            }),
            Focus::Details => b == self,
        }
    }

    /// `b` is this state after Enter.
    pub open spec fn entered(self, today: Date, b: App) -> bool {
        match self.focus {
            Focus::Sidebar => if self.sidebar_cursor < self.sidebar().len() {
                match self.sidebar()[self.sidebar_cursor as int] {
                    SidebarModel::SectionHeader(_) => b == self,
                    item => {
                        &&& b == (App {
                            view: b.view,
                            task_cursor: 0,
                            focus: Focus::Tasks,
                            ..self
                        })
                        &&& b.view@ == match item {
                            SidebarModel::View(v) => v,
                            SidebarModel::Project(id, _) => ViewModel::Project(id),
                            SidebarModel::Tag(t) => ViewModel::Tag(t),
                            SidebarModel::SectionHeader(_) => ViewModel::All,
                        }
                    },
                }
            } else {
                b == self
            },
            Focus::Tasks => exists|rows: Seq<FlatRowModel>|
                self.rows_ok(today, rows) && if self.task_cursor < rows.len() {
                    let row = rows[self.task_cursor as int];
                    if row.has_children {
                        &&& b == (App { expanded: b.expanded, ..self })
                        &&& b.expanded@ == self.expanded@.insert(
                            row.task.id,
                            !crate::tree::expanded_in(self.expanded@, row.task.id),
                        )
                    } else {
                        b == (App { focus: Focus::Details, ..self })
                    }
                } else {
                    b == self
                },
            Focus::Details => b == self,
        }
    }

    /// The selectable sidebar positions.
    pub open spec fn selectable(self) -> Seq<int> {
        selectable_of(sidebar_spec(self.projects@, strings_view(self.config.tags.default@)))
    }

    /// The sidebar.
    pub open spec fn sidebar(self) -> Seq<SidebarModel> {
        sidebar_spec(self.projects@, strings_view(self.config.tags.default@))
    }

    pub(crate) fn move_down(&mut self, today: Date)
        ensures
            old(self).moved_down(today, *final(self)),

    {
        match self.focus {
            Focus::Tasks => {
                let n: usize = self.visible_rows_at(today).len();
                if n > 0 && self.task_cursor < n - 1 {
                    self.task_cursor += 1;
                }
            },
            Focus::Sidebar => self.sidebar_move(1),
            Focus::Details => {},
        }
    }

    pub(crate) fn move_up(&mut self)
        ensures
            old(self).moved_up(*final(self)),

    {
        match self.focus {
            Focus::Tasks => {
                if self.task_cursor > 0 {
                    self.task_cursor -= 1;
                }
            },
            Focus::Sidebar => self.sidebar_move(-1),
            Focus::Details => {},
        }
    }

    /// Collapse the current row, or move to the pane on the left.
    pub(crate) fn move_left(&mut self, today: Date)
        ensures
            old(self).moved_left(today, *final(self)),

    {
        match self.focus {
            Focus::Tasks => {
                let rows = self.visible_rows_at(today);
                if self.task_cursor < rows.len() {
                    let row = &rows[self.task_cursor];
                    if row.has_children && row.expanded {
                        self.expanded.insert(row.task.id, false);
                        return;
                    }
                }
                self.focus = Focus::Sidebar;
            },
            Focus::Details => self.focus = Focus::Tasks,
            Focus::Sidebar => {},
        }
    }

    /// Expand the current row, or move to the pane on the right.
    pub(crate) fn move_right(&mut self, today: Date)
        ensures
            old(self).moved_right(today, *final(self)),

    {
        match self.focus {
            Focus::Sidebar => self.focus = Focus::Tasks,
            Focus::Tasks => {
                let rows = self.visible_rows_at(today);
                if self.task_cursor < rows.len() {
                    let row = &rows[self.task_cursor];
                    if row.has_children && !row.expanded {
                        self.expanded.insert(row.task.id, true);
                        return;
                    }
                }
                self.focus = Focus::Details;
            },
            Focus::Details => {},
        }
    }

    pub(crate) fn cursor_top(&mut self)
        ensures
            old(self).went_top(*final(self)),

    {
        match self.focus {
            Focus::Tasks => self.task_cursor = 0,
            Focus::Sidebar => {
                let sel = self.sidebar_selectable_indices();
                if sel.len() > 0 {
                    self.sidebar_cursor = sel[0];
                }
            },
            Focus::Details => {},
        }
    }

    pub(crate) fn cursor_bottom(&mut self, today: Date)
        ensures
            old(self).went_bottom(today, *final(self)),

    {
        match self.focus {
            Focus::Tasks => {
                let n: usize = self.visible_rows_at(today).len();
                if n > 0 {
                    self.task_cursor = n - 1;
                }
            },
            Focus::Sidebar => {
                let sel = self.sidebar_selectable_indices();
                if sel.len() > 0 {
                    self.sidebar_cursor = sel[sel.len() - 1];
                }
            },
            Focus::Details => {},
        }
    }

    /// Enter: open the sidebar item under the cursor, or expand/collapse the
    /// current task row (moving to the details pane when it has no children).
    pub(crate) fn on_enter(&mut self, today: Date)
        ensures
            old(self).entered(today, *final(self)),

    {
        match self.focus {
            Focus::Sidebar => {
                let items = self.sidebar_items();
                if self.sidebar_cursor < items.len() {
                    let new_view = match &items[self.sidebar_cursor] {
                        SidebarItem::View(v) => Some(v.clone()),
                        SidebarItem::Project(p) => Some(View::Project(p.id)),
                        SidebarItem::Tag(t) => Some(View::Tag(copy_str(t.as_str()))),
                        SidebarItem::SectionHeader(_) => None,
                    };
                    if let Some(v) = new_view {
                        self.view = v;
                        self.task_cursor = 0;
                        self.focus = Focus::Tasks;
                    }
                }
            },
            Focus::Tasks => {
                let rows = self.visible_rows_at(today);
                if self.task_cursor < rows.len() {
                    let row = &rows[self.task_cursor];
                    if row.has_children {
                        let id: i64 = row.task.id;
                        let cur = match self.expanded.get(&id) {
                            Some(b) => *b,
                            None => true,
                        };
                        self.expanded.insert(id, !cur);
                    } else {
                        self.focus = Focus::Details;
                    }
                }
            },
            Focus::Details => {},
        }
    }
}

} // verus!
