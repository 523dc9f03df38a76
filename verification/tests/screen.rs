use std::collections::HashMap;
use todotui::app::{App, SidebarItem, View};
use todotui::calendar::{Date, Timestamp};
use todotui::config::Config;
use todotui::input::EditTarget;
use todotui::models::{Priority, Project, Status, Task};
use todotui::pomodoro::Pomodoro;
use todotui::screen::{
    active_sidebar_label, description_lines, detail_text, insert_prompt, key_hints,
    label_is_active, log_groups, log_groups_at, message_line, pomo_label, row_text,
    sidebar_label, today_summary,
};
use todotui::tree::{build_tree, flatten_tree};

fn day(y: i32, m: u32, d: u32) -> Date {
    Date::from_ymd(y, m, d).unwrap()
}

fn now() -> Timestamp {
    Timestamp::from_unix(1_779_580_800, 0).unwrap()
}

fn task(id: i64, parent: Option<i64>, title: &str) -> Task {
    let mut t = Task::new_at(title, now());
    t.id = id;
    t.parent_id = parent;
    t
}

#[test]
fn sidebar_rows_and_active_view() {
    assert_eq!(sidebar_label(&SidebarItem::SectionHeader("Views")), "Views");
    assert_eq!(sidebar_label(&SidebarItem::View(View::Today)), "  Today");
    assert_eq!(
        sidebar_label(&SidebarItem::Project(Project { id: 1, name: "Lab".into() })),
        "  # Lab"
    );
    assert_eq!(sidebar_label(&SidebarItem::Tag("work".into())), "  @ work");
    let mut app = App::new(
        Config::default(),
        vec![],
        vec![Project { id: 1, name: "Lab".into() }],
        day(2026, 5, 24),
    );
    app.view = View::Project(1);
    let active = active_sidebar_label(&app);
    assert_eq!(active.as_deref(), Some("# Lab"));
    assert!(label_is_active("  # Lab", &active));
    assert!(!label_is_active("  # Lab2", &active));
    app.view = View::Project(99);
    assert!(active_sidebar_label(&app).is_none());
    assert_eq!(app.view.label(&app.projects), "Project: ?");
}

#[test]
fn task_row_pieces() {
    let today = day(2026, 5, 24);
    let mut parent = task(1, None, "paper");
    parent.due_date = Some(day(2026, 5, 20));
    parent.priority = Priority::High;
    parent.tags = vec!["work".into(), "idea".into()];
    let mut child = task(2, Some(1), "figure");
    child.status = Status::Done;
    child.due_date = Some(day(2026, 5, 1));
    let nodes = build_tree(&[parent, child]);
    let rows = flatten_tree(&nodes, &HashMap::new());
    let a = row_text(&rows[0], today);
    assert_eq!(a.indent, "");
    assert_eq!(a.marker, "▾ ");
    assert_eq!(a.checkbox, "[ ]");
    assert_eq!(a.priority, "[H] ");
    assert_eq!(a.title, "paper");
    assert!(a.title_overdue && !a.title_done);
    assert_eq!(a.due.as_deref(), Some("(2026-05-20)"));
    assert!(a.due_late);
    assert_eq!(a.tags.as_deref(), Some("[work,idea]"));
    let b = row_text(&rows[1], today);
    assert_eq!(b.indent, "  ");
    assert_eq!(b.marker, "  ");
    assert_eq!(b.checkbox, "[x]");
    assert!(b.title_done && !b.title_overdue);
    assert!(!b.due_late);
    assert!(b.tags.is_none());
}

#[test]
fn details_and_description() {
    let mut t = task(1, None, "paper");
    t.project_id = Some(4);
    t.tags = vec!["a".into(), "b".into()];
    let projects = vec![Project { id: 4, name: "Lab".into() }];
    let d = detail_text(&t, &projects);
    assert_eq!(d.project, "Lab");
    assert_eq!(d.due, "—");
    assert_eq!(d.tags, "a, b");
    t.project_id = None;
    t.tags.clear();
    t.due_date = Some(day(2026, 1, 2));
    let d = detail_text(&t, &projects);
    assert_eq!(d.project, "—");
    assert_eq!(d.due, "2026-01-02");
    assert_eq!(d.tags, "—");
    assert_eq!(description_lines("one\r\ntwo\n\nthree\r"), vec!["one", "two", "", "three\r"]);
    assert_eq!(description_lines("x\n"), vec!["x"]);
    assert!(description_lines("").is_empty());
}

#[test]
fn today_summary_counts() {
    let today = day(2026, 5, 24);
    let mut a = task(1, None, "late");
    a.due_date = Some(day(2026, 5, 20));
    let mut b = task(2, None, "today");
    b.due_date = Some(today);
    b.status = Status::Doing;
    let mut c = task(3, None, "done today");
    c.due_date = Some(today);
    c.status = Status::Done;
    let s = today_summary(&[a, b, c], today);
    assert_eq!((s.overdue, s.due_today, s.doing), (1, 1, 1));
}

#[test]
fn work_log_groups_by_day_newest_first() {
    let tasks = vec![task(1, None, "a"), task(2, None, "b"), task(3, None, "c"), task(4, None, "d")];
    let d1 = day(2026, 5, 20);
    let d2 = day(2026, 5, 22);
    let dates = vec![Some(d1), None, Some(d2), Some(d1)];
    let groups = log_groups_at(&tasks, &dates);
    assert_eq!(groups.len(), 2);
    assert_eq!(groups[0].day, d2);
    assert_eq!(groups[0].titles, vec!["c"]);
    assert_eq!(groups[1].day, d1);
    assert_eq!(groups[1].titles, vec!["a", "d"]);
    let mut done = task(5, None, "e");
    done.completed_at = Some(now());
    let groups = log_groups(&[task(6, None, "open"), done]);
    assert_eq!(groups.len(), 1);
    assert_eq!(groups[0].titles, vec!["e"]);
}

#[test]
fn bottom_bar_text() {
    assert_eq!(insert_prompt(Some(EditTarget::NewSubtask { parent_id: 1 })), "new subtask: ");
    assert_eq!(insert_prompt(None), "input: ");
    let mut app = App::new(Config::default(), vec![], vec![], day(2026, 5, 24));
    assert_eq!(message_line(&app), key_hints());
    assert!(key_hints().starts_with("j/k move"));
    app.status_message = Some("hi".into());
    assert_eq!(message_line(&app), "hi");
    let p = Pomodoro::new(1, 25);
    let label = pomo_label(&p);
    assert!(label == "25:00" || label == "24:59", "{}", label);
    let zero = Pomodoro::new(1, 0);
    assert_eq!(pomo_label(&zero), "DONE");
}

#[test]
fn timer_label_reads_the_time_left() {
    assert_eq!(todotui::screen::label_of(0), "DONE");
    assert_eq!(todotui::screen::label_of(61_500_000_000), "01:01");
    assert_eq!(todotui::screen::label_of(1), "00:00");
    assert_eq!(todotui::screen::label_of(25 * 60 * 1_000_000_000), "25:00");
}
