use todotui::export::render_markdown;
use todotui::models::{Status, Task};

fn t(id: i64, parent: Option<i64>, title: &str, done: bool) -> Task {
    let mut x = Task::new_now(title);
    x.id = id;
    x.parent_id = parent;
    if done {
        x.status = Status::Done;
    }
    x
}

#[test]
fn export_indents_subtasks() {
    let tasks = vec![
        t(1, None, "論文誌執筆", false),
        t(2, Some(1), "関連研究を書く", false),
        t(3, Some(1), "実験結果を整理する", false),
        t(4, None, "PBL資料作り", false),
    ];
    let md = render_markdown("Today", &tasks);
    assert!(md.contains("## Today"));
    assert!(md.contains("- [ ] 論文誌執筆"));
    assert!(md.contains("  - [ ] 関連研究を書く"));
    assert!(md.contains("  - [ ] 実験結果を整理する"));
    assert!(md.contains("- [ ] PBL資料作り"));
}

#[test]
fn export_marks_done() {
    let tasks = vec![t(1, None, "done thing", true)];
    let md = render_markdown("All", &tasks);
    assert!(md.contains("- [x] done thing"));
}

#[test]
fn export_empty_shows_placeholder() {
    let md = render_markdown("Today", &[]);
    assert!(md.contains("_(no tasks)_"));
}

#[test]
fn export_writes_due_dates_exactly() {
    let mut a = t(1, None, "paper", false);
    a.due_date = Some(todotui::calendar::Date::from_ymd(2026, 6, 1).unwrap());
    let b = t(2, Some(1), "figure", true);
    let md = render_markdown("All", &[a, b]);
    assert_eq!(md, "## All\n\n- [ ] paper (due: 2026-06-01)\n  - [x] figure\n");
}
