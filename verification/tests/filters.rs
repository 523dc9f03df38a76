use todotui::calendar::Date;
use todotui::calendar::Timestamp;
use todotui::filters::{apply, completed_on, completed_on_dates, today_view, DueCategory, TaskFilter};
use todotui::models::{Priority, Status, Task};

fn mk(title: &str, status: Status, due: Option<Date>) -> Task {
    let mut t = Task::new_now(title);
    t.status = status;
    t.due_date = due;
    t
}

fn day(y: i32, m: u32, d: u32) -> Date {
    Date::from_ymd(y, m, d).unwrap()
}

#[test]
fn filter_query_matches_title() {
    let today = day(2026, 5, 24);
    let tasks = vec![
        mk("write paper", Status::Todo, None),
        mk("buy milk", Status::Todo, None),
    ];
    let f = TaskFilter {
        query: Some("paper".into()),
        ..Default::default()
    };
    let out = apply(&tasks, &f, today, 7);
    assert_eq!(out.len(), 1);
    assert_eq!(out[0].title, "write paper");
}

#[test]
fn filter_excludes_done_by_default() {
    let today = day(2026, 5, 24);
    let tasks = vec![mk("a", Status::Todo, None), mk("b", Status::Done, None)];
    let out = apply(&tasks, &TaskFilter::default(), today, 7);
    assert_eq!(out.len(), 1);
    assert_eq!(out[0].title, "a");
}

#[test]
fn filter_includes_done_when_status_filter_set() {
    let today = day(2026, 5, 24);
    let tasks = vec![mk("a", Status::Todo, None), mk("b", Status::Done, None)];
    let f = TaskFilter {
        status: Some(Status::Done),
        ..Default::default()
    };
    let out = apply(&tasks, &f, today, 7);
    assert_eq!(out.len(), 1);
    assert_eq!(out[0].title, "b");
}

#[test]
fn today_view_picks_overdue_and_today() {
    let today = day(2026, 5, 24);
    let yesterday = today.add_days(-1).unwrap();
    let next_week = today.add_days(7).unwrap();
    let tasks = vec![
        mk("over", Status::Todo, Some(yesterday)),
        mk("now", Status::Todo, Some(today)),
        mk("future", Status::Todo, Some(next_week)),
        mk("doing", Status::Doing, None),
    ];
    let out = today_view(&tasks, today);
    assert_eq!(out.len(), 3);
    assert!(out.iter().any(|t| t.title == "over"));
    assert!(out.iter().any(|t| t.title == "now"));
    assert!(out.iter().any(|t| t.title == "doing"));
}

#[test]
fn today_view_skips_done_even_when_due() {
    let today = day(2026, 5, 24);
    let tasks = vec![
        mk("finished", Status::Done, Some(today)),
        mk("late but done", Status::Done, Some(today.add_days(-3).unwrap())),
    ];
    assert!(today_view(&tasks, today).is_empty());
}

#[test]
fn query_ignores_case_and_reads_description() {
    let today = day(2026, 5, 24);
    let mut a = mk("Write Paper", Status::Todo, None);
    a.description = "section on RELATED work".into();
    let tasks = vec![a, mk("other", Status::Todo, None)];
    let f = TaskFilter {
        query: Some("related".into()),
        ..Default::default()
    };
    assert_eq!(apply(&tasks, &f, today, 7).len(), 1);
    let f = TaskFilter {
        query: Some("PAPER".into()),
        ..Default::default()
    };
    assert_eq!(apply(&tasks, &f, today, 7).len(), 1);
}

#[test]
fn filter_by_project_tag_priority_and_due() {
    let today = day(2026, 5, 24);
    let mut a = mk("a", Status::Todo, Some(today.add_days(3).unwrap()));
    a.project_id = Some(7);
    a.tags = vec!["work".into()];
    a.priority = Priority::High;
    let mut b = mk("b", Status::Todo, Some(today.add_days(9).unwrap()));
    b.project_id = Some(8);
    let tasks = vec![a, b];
    let by_project = TaskFilter {
        project_id: Some(7),
        ..Default::default()
    };
    assert_eq!(apply(&tasks, &by_project, today, 7)[0].title, "a");
    let by_tag = TaskFilter {
        tag: Some("work".into()),
        ..Default::default()
    };
    assert_eq!(apply(&tasks, &by_tag, today, 7).len(), 1);
    let by_priority = TaskFilter {
        priority: Some(Priority::Medium),
        ..Default::default()
    };
    assert_eq!(apply(&tasks, &by_priority, today, 7)[0].title, "b");
    let this_week = TaskFilter {
        due_category: Some(DueCategory::ThisWeek),
        ..Default::default()
    };
    assert_eq!(apply(&tasks, &this_week, today, 7).len(), 1);
    assert_eq!(apply(&tasks, &this_week, today, 10).len(), 2);
    let overdue = TaskFilter {
        due_category: Some(DueCategory::Overdue),
        ..Default::default()
    };
    assert!(apply(&tasks, &overdue, today, 7).is_empty());
}

#[test]
fn query_folds_unicode_case() {
    let today = day(2026, 5, 24);
    let tasks = vec![mk("ÄPFEL kaufen", Status::Todo, None), mk("Birnen", Status::Todo, None)];
    let f = TaskFilter {
        query: Some("äpfel".into()),
        ..Default::default()
    };
    let out = apply(&tasks, &f, today, 7);
    assert_eq!(out.len(), 1);
    assert_eq!(out[0].title, "ÄPFEL kaufen");
}

#[test]
fn completed_on_picks_the_day() {
    let d = day(2026, 5, 20);
    let tasks = vec![
        mk("a", Status::Done, None),
        mk("b", Status::Done, None),
        mk("c", Status::Todo, None),
    ];
    let dates = vec![Some(d), Some(day(2026, 5, 21)), None];
    let out = completed_on_dates(&tasks, &dates, d);
    assert_eq!(out.len(), 1);
    assert_eq!(out[0].title, "a");
    let mut done = mk("finished", Status::Done, None);
    let now = Timestamp::now();
    done.completed_at = Some(now);
    let local = now.local_date().unwrap();
    let out = completed_on(&[done, mk("open", Status::Todo, None)], local);
    assert_eq!(out.len(), 1);
    assert_eq!(out[0].title, "finished");
}
