use todotui::calendar::{Date, Timestamp};
use todotui::models::{Priority, Status, Task};
use todotui::store::{
    join_tags, seed_children, seed_roots, split_tags, task_from_row, task_to_row,
    RowFault,
};

fn now() -> Timestamp {
    Timestamp::from_unix(1_779_580_800, 0).unwrap()
}

#[test]
fn tags_column_roundtrip() {
    let tags = vec!["研究".to_string(), "work".to_string()];
    let col = join_tags(&tags);
    assert_eq!(col, "研究,work");
    assert_eq!(split_tags(&col), tags);
    assert_eq!(split_tags(" a , ,b,"), vec!["a".to_string(), "b".to_string()]);
    assert!(split_tags("").is_empty());
}

#[test]
fn rows_read_back_as_written() {
    let mut t = Task::new_at("paper", now());
    t.id = 7;
    t.parent_id = Some(3);
    t.status = Status::Done;
    t.priority = Priority::High;
    t.due_date = Some(Date::from_ymd(2026, 6, 1).unwrap());
    t.tags = vec!["work".into()];
    t.completed_at = Some(now());
    let row = task_to_row(&t);
    assert_eq!(row.status, "done");
    assert_eq!(row.priority, "high");
    assert_eq!(row.due_date.as_deref(), Some("2026-06-01"));
    assert_eq!(row.tags, "work");
    let back = task_from_row(&row).unwrap();
    assert_eq!(back.id, 7);
    assert_eq!(back.parent_id, Some(3));
    assert_eq!(back.status, Status::Done);
    assert_eq!(back.due_date, t.due_date);
    assert_eq!(back.completed_at, Some(now()));
    assert_eq!(back.tags, t.tags);
    assert_eq!(back.title, "paper");
}

#[test]
fn bad_columns_are_reported() {
    let t = Task::new_at("x", now());
    let mut row = task_to_row(&t);
    row.status = "blocked".into();
    let e = task_from_row(&row).unwrap_err();
    assert_eq!(e.column, 5);
    match e.fault {
        RowFault::Text(m) => assert_eq!(m, "unknown status: blocked"),
        other => panic!("expected a text fault, got {:?}", other),
    }
    let mut row = task_to_row(&t);
    row.created_at = "not a time".into();
    let e = task_from_row(&row).unwrap_err();
    assert_eq!(e.column, 9);
    assert!(matches!(e.fault, RowFault::Time(_)));
    let mut row = task_to_row(&t);
    row.due_date = Some(String::new());
    assert!(task_from_row(&row).unwrap().due_date.is_none());
}

#[test]
fn seed_tasks() {
    let roots = seed_roots(Some(1), Some(2), Some(3), now());
    assert_eq!(roots.len(), 4);
    assert_eq!(roots[0].title, "論文誌執筆");
    assert_eq!(roots[0].project_id, Some(1));
    let kids = seed_children(9, Some(1), now());
    assert!(kids.iter().all(|k| k.parent_id == Some(9) && k.project_id == Some(1)));
}
