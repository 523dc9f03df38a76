use todotui::app::{App, EditField, Effect, Key, KeyInput, View};
use todotui::calendar::{Date, Timestamp};
use todotui::config::Config;
use todotui::error::AppError;
use todotui::input::{EditTarget, Focus, Mode};
use todotui::keys::parse_due;
use todotui::models::{Project, Status, Task};

fn day(y: i32, m: u32, d: u32) -> Date {
    Date::from_ymd(y, m, d).unwrap()
}

#[test]
fn parse_due_handles_keywords() {
    let today = day(2026, 5, 24);
    assert_eq!(parse_due("today", today).unwrap(), Some(today));
    assert_eq!(
        parse_due("tomorrow", today).unwrap(),
        Some(today.add_days(1).unwrap())
    );
    assert_eq!(parse_due("none", today).unwrap(), None);
    assert_eq!(
        parse_due("2026-06-01", today).unwrap(),
        Some(day(2026, 6, 1))
    );
    assert!(parse_due("not-a-date", today).is_err());
}

#[test]
fn parse_due_trims_and_ignores_case() {
    let today = day(2026, 5, 24);
    assert_eq!(parse_due("  TODAY ", today).unwrap(), Some(today));
    assert_eq!(parse_due("", today).unwrap(), None);
    assert_eq!(parse_due(" NoNe", today).unwrap(), None);
    assert_eq!(parse_due(" 2026-12-31 ", today).unwrap(), Some(day(2026, 12, 31)));
    assert!(matches!(parse_due("2026-13-01", today), Err(AppError::DateParse(_))));
}

fn now() -> Timestamp {
    Timestamp::from_unix(1_779_580_800, 0).unwrap()
}

fn task(id: i64, parent: Option<i64>, title: &str) -> Task {
    let mut t = Task::new_at(title, now());
    t.id = id;
    t.parent_id = parent;
    t
}

fn key(c: char) -> KeyInput {
    KeyInput { key: Key::Char(c), ctrl: false }
}

fn special(k: Key) -> KeyInput {
    KeyInput { key: k, ctrl: false }
}

fn sample_app() -> App {
    let tasks = vec![task(1, None, "write paper"), task(2, Some(1), "draw figure"), task(3, None, "buy milk")];
    let projects = vec![Project { id: 10, name: "Lab".into() }];
    App::new(Config::default(), tasks, projects, day(2026, 5, 24))
}

fn press(app: &mut App, k: KeyInput) -> Result<Effect, AppError> {
    app.on_key_at(k, day(2026, 5, 24), now())
}

fn type_line(app: &mut App, text: &str) {
    for c in text.chars() {
        press(app, key(c)).unwrap();
    }
}

#[test]
fn new_app_starts_in_normal_mode_on_all() {
    let app = sample_app();
    assert_eq!(app.mode, Mode::Normal);
    assert_eq!(app.focus, Focus::Tasks);
    assert_eq!(app.view, View::All);
    assert_eq!(app.task_cursor, 0);
    assert!(app.status_message.is_none());
    assert_eq!(app.visible_rows_at(day(2026, 5, 24)).len(), 3);
}

#[test]
fn q_and_ctrl_c_quit() {
    let mut app = sample_app();
    press(&mut app, key('q')).unwrap();
    assert!(app.should_quit);
    let mut app = sample_app();
    press(&mut app, key(':')).unwrap();
    press(&mut app, KeyInput { key: Key::Char('c'), ctrl: true }).unwrap();
    assert!(app.should_quit);
    assert_eq!(app.mode, Mode::Command);
}

#[test]
fn command_bar_runs_quit() {
    let mut app = sample_app();
    press(&mut app, key(':')).unwrap();
    assert_eq!(app.mode, Mode::Command);
    type_line(&mut app, "qx");
    press(&mut app, special(Key::Backspace)).unwrap();
    assert_eq!(app.input_buffer, "q");
    press(&mut app, special(Key::Enter)).unwrap();
    assert!(app.should_quit);
    assert_eq!(app.mode, Mode::Normal);
    assert_eq!(app.input_buffer, "");
}

#[test]
fn unknown_command_is_reported() {
    let mut app = sample_app();
    press(&mut app, key(':')).unwrap();
    type_line(&mut app, "frobnicate");
    press(&mut app, special(Key::Enter)).unwrap();
    assert_eq!(app.status_message.as_deref(), Some("err: invalid command: frobnicate"));
}

#[test]
fn search_narrows_rows_and_c_clears() {
    let mut app = sample_app();
    press(&mut app, key('/')).unwrap();
    type_line(&mut app, " MILK ");
    press(&mut app, special(Key::Enter)).unwrap();
    assert_eq!(app.search_query.as_deref(), Some("MILK"));
    let rows = app.visible_rows_at(day(2026, 5, 24));
    assert_eq!(rows.len(), 1);
    assert_eq!(rows[0].task.title, "buy milk");
    press(&mut app, key('c')).unwrap();
    assert!(app.search_query.is_none());
    assert_eq!(app.status_message.as_deref(), Some("filters cleared"));
}

#[test]
fn escape_leaves_every_mode() {
    for opener in ['?', ':', '/', 'a'] {
        let mut app = sample_app();
        press(&mut app, key(opener)).unwrap();
        assert_ne!(app.mode, Mode::Normal);
        press(&mut app, special(Key::Esc)).unwrap();
        assert_eq!(app.mode, Mode::Normal);
    }
}

#[test]
fn adding_a_task_asks_for_an_insert() {
    let mut app = sample_app();
    press(&mut app, key('a')).unwrap();
    assert_eq!(app.edit_target, Some(EditTarget::NewTask));
    type_line(&mut app, "  new thing ");
    match press(&mut app, special(Key::Enter)).unwrap() {
        Effect::Insert { task, expand, message } => {
            assert_eq!(task.title, "new thing");
            assert_eq!(task.status, Status::Todo);
            assert_eq!(task.created_at, now());
            assert!(expand.is_none());
            assert_eq!(message, "task added");
        }
        other => panic!("expected an insert, got {:?}", other),
    }
    assert_eq!(app.mode, Mode::Normal);
    assert!(app.edit_target.is_none());
}

#[test]
fn empty_title_is_cancelled() {
    let mut app = sample_app();
    press(&mut app, key('a')).unwrap();
    type_line(&mut app, "   ");
    assert!(matches!(press(&mut app, special(Key::Enter)).unwrap(), Effect::Nothing));
    assert_eq!(app.status_message.as_deref(), Some("cancelled (empty title)"));
}

#[test]
fn subtask_fetches_the_parent_then_inserts() {
    let mut app = sample_app();
    press(&mut app, key('o')).unwrap();
    assert_eq!(app.edit_target, Some(EditTarget::NewSubtask { parent_id: 1 }));
    type_line(&mut app, "child");
    let (pid, title) = match press(&mut app, special(Key::Enter)).unwrap() {
        Effect::FetchParent { parent_id, title } => (parent_id, title),
        other => panic!("expected a parent fetch, got {:?}", other),
    };
    assert_eq!(pid, 1);
    let mut parent = task(1, None, "write paper");
    parent.project_id = Some(10);
    match App::on_parent_fetched(pid, &title, Some(parent), now()).unwrap() {
        Effect::Insert { task, expand, message } => {
            assert_eq!(task.parent_id, Some(1));
            assert_eq!(task.project_id, Some(10));
            assert_eq!(expand, Some(1));
            assert_eq!(message, "subtask added");
        }
        other => panic!("expected an insert, got {:?}", other),
    }
    match App::on_parent_fetched(-42, "x", None, now()) {
        Err(AppError::NotFound(m)) => assert_eq!(m, "parent -42"),
        other => panic!("expected not found, got {:?}", other),
    }
}

#[test]
fn editing_the_title_prefills_and_updates() {
    let mut app = sample_app();
    press(&mut app, key('i')).unwrap();
    assert_eq!(app.input_buffer, "write paper");
    press(&mut app, special(Key::Backspace)).unwrap();
    match press(&mut app, special(Key::Enter)).unwrap() {
        Effect::FetchForEdit { task_id, field, text } => {
            assert_eq!(task_id, 1);
            assert_eq!(field, EditField::Title);
            assert_eq!(text, "write pape");
        }
        other => panic!("expected a fetch, got {:?}", other),
    }
    let e = App::on_edit_fetched(EditField::Title, "renamed".into(), Some(task(1, None, "old")), now());
    match e {
        Effect::Update { task, note } => {
            assert_eq!(task.title, "renamed");
            assert_eq!(note.as_deref(), Some("title updated"));
        }
        other => panic!("expected an update, got {:?}", other),
    }
    assert!(matches!(
        App::on_edit_fetched(EditField::Description, "d".into(), None, now()),
        Effect::Nothing
    ));
}

#[test]
fn space_completes_and_reports_where_the_task_went() {
    let mut app = sample_app();
    match press(&mut app, key(' ')).unwrap() {
        Effect::Update { task, note } => {
            assert_eq!(task.status, Status::Done);
            assert_eq!(task.completed_at, Some(now()));
            assert_eq!(
                note.as_deref(),
                Some("'write paper' → done (hidden here; see Done view, or set [ui] show_done_in_all = true)")
            );
        }
        other => panic!("expected an update, got {:?}", other),
    }
}

#[test]
fn s_cycles_status_and_p_cycles_priority() {
    let mut app = sample_app();
    match press(&mut app, key('s')).unwrap() {
        Effect::Update { task, note } => {
            assert_eq!(task.status, Status::Doing);
            assert!(task.completed_at.is_none());
            assert_eq!(note.as_deref(), Some("'write paper' → doing"));
        }
        other => panic!("expected an update, got {:?}", other),
    }
    match press(&mut app, key('p')).unwrap() {
        Effect::Update { task, note } => {
            assert_eq!(task.priority, todotui::models::Priority::Low);
            assert!(note.is_none());
        }
        other => panic!("expected an update, got {:?}", other),
    }
}

#[test]
fn dd_deletes_and_gg_goes_to_top() {
    let mut app = sample_app();
    press(&mut app, key('G')).unwrap();
    assert_eq!(app.task_cursor, 2);
    press(&mut app, key('d')).unwrap();
    assert!(app.pending_d);
    match press(&mut app, key('d')).unwrap() {
        Effect::Delete { id } => assert_eq!(id, 3),
        other => panic!("expected a delete, got {:?}", other),
    }
    press(&mut app, key('g')).unwrap();
    press(&mut app, key('g')).unwrap();
    assert_eq!(app.task_cursor, 0);
}

#[test]
fn movement_and_collapse() {
    let mut app = sample_app();
    press(&mut app, key('j')).unwrap();
    assert_eq!(app.task_cursor, 1);
    press(&mut app, special(Key::Up)).unwrap();
    assert_eq!(app.task_cursor, 0);
    press(&mut app, key('h')).unwrap();
    assert_eq!(app.expanded.get(&1), Some(&false));
    assert_eq!(app.visible_rows_at(day(2026, 5, 24)).len(), 2);
    press(&mut app, key('l')).unwrap();
    assert_eq!(app.expanded.get(&1), Some(&true));
    press(&mut app, special(Key::Tab)).unwrap();
    assert_eq!(app.focus, Focus::Details);
    press(&mut app, special(Key::Tab)).unwrap();
    assert_eq!(app.focus, Focus::Sidebar);
}

#[test]
fn sidebar_enter_switches_view() {
    let mut app = sample_app();
    app.focus = Focus::Sidebar;
    app.sidebar_cursor = 1;
    press(&mut app, key('j')).unwrap();
    assert_eq!(app.sidebar_cursor, 2);
    press(&mut app, special(Key::Enter)).unwrap();
    assert_eq!(app.view, View::Today);
    assert_eq!(app.focus, Focus::Tasks);
    app.focus = Focus::Sidebar;
    press(&mut app, key('k')).unwrap();
    press(&mut app, key('k')).unwrap();
    assert_eq!(app.sidebar_cursor, app.sidebar_selectable_indices()[app.sidebar_selectable_indices().len() - 1]);
}

#[test]
fn addtag_only_predefined() {
    let mut app = sample_app();
    press(&mut app, key(':')).unwrap();
    type_line(&mut app, "addtag nonsense");
    match press(&mut app, special(Key::Enter)) {
        Err(AppError::InvalidInput(m)) => {
            assert_eq!(m, "tag 'nonsense' not in predefined tags (config.toml)")
        }
        other => panic!("expected invalid input, got {:?}", other),
    }
    press(&mut app, key(':')).unwrap();
    type_line(&mut app, "addtag work");
    match press(&mut app, special(Key::Enter)).unwrap() {
        Effect::Update { task, note } => {
            assert_eq!(task.tags, vec!["work".to_string()]);
            assert_eq!(note.as_deref(), Some("tag added"));
        }
        other => panic!("expected an update, got {:?}", other),
    }
}

#[test]
fn commands_on_the_selected_task() {
    let mut app = sample_app();
    let run = |app: &mut App, line: &str| {
        press(app, key(':')).unwrap();
        type_line(app, line);
        press(app, special(Key::Enter))
    };
    match run(&mut app, "due tomorrow").unwrap() {
        Effect::Update { task, note } => {
            assert_eq!(task.due_date, Some(day(2026, 5, 25)));
            assert_eq!(note.as_deref(), Some("due updated"));
        }
        other => panic!("expected an update, got {:?}", other),
    }
    assert!(matches!(run(&mut app, "due 2026-02-30"), Err(AppError::DateParse(_))));
    match run(&mut app, "pri zzz") {
        Err(AppError::InvalidInput(m)) => assert_eq!(m, "unknown priority: zzz"),
        other => panic!("expected invalid input, got {:?}", other),
    }
    match run(&mut app, "status done").unwrap() {
        Effect::Update { task, .. } => assert_eq!(task.completed_at, Some(now())),
        other => panic!("expected an update, got {:?}", other),
    }
    match run(&mut app, "project Lab").unwrap() {
        Effect::Update { task, .. } => assert_eq!(task.project_id, Some(10)),
        other => panic!("expected an update, got {:?}", other),
    }
    match run(&mut app, "project Nowhere") {
        Err(AppError::NotFound(m)) => assert_eq!(m, "project Nowhere"),
        other => panic!("expected not found, got {:?}", other),
    }
    match run(&mut app, "newproject Thesis").unwrap() {
        Effect::CreateProject { name } => assert_eq!(name, "Thesis"),
        other => panic!("expected a project, got {:?}", other),
    }
    match run(&mut app, "rmtag work").unwrap() {
        Effect::Nothing => assert_eq!(app.status_message.as_deref(), Some("tag not present")),
        other => panic!("expected nothing, got {:?}", other),
    }
    run(&mut app, "pomo").unwrap();
    assert_eq!(
        app.status_message.as_deref(),
        Some("pomodoro started (25 min) on 'write paper'")
    );
    assert_eq!(app.pomodoro.as_ref().unwrap().duration_secs, 1500);
    run(&mut app, "pomostop").unwrap();
    assert!(app.pomodoro.is_none());
    run(&mut app, "w").unwrap();
    assert_eq!(app.status_message.as_deref(), Some("ok (changes already saved)"));
}

#[test]
fn export_builds_markdown_of_the_scope() {
    let mut app = sample_app();
    press(&mut app, key(':')).unwrap();
    type_line(&mut app, "export all out.md");
    match press(&mut app, special(Key::Enter)).unwrap() {
        Effect::Export { path, markdown } => {
            assert_eq!(path.as_deref(), Some("out.md"));
            assert_eq!(
                markdown,
                "## All\n\n- [ ] write paper\n  - [ ] draw figure\n- [ ] buy milk\n"
            );
        }
        other => panic!("expected an export, got {:?}", other),
    }
    press(&mut app, key(':')).unwrap();
    type_line(&mut app, "export project Nope");
    assert!(matches!(press(&mut app, special(Key::Enter)), Err(AppError::NotFound(_))));
}

#[test]
fn finishing_outside_work_updates_state() {
    let mut app = sample_app();
    let mut tasks = vec![task(1, None, "write paper"), task(2, Some(1), "draw figure"), task(3, None, "buy milk")];
    tasks.push(task(4, Some(3), "oat milk"));
    app.finish_insert(4, tasks, Some(3), "subtask added", day(2026, 5, 24));
    assert_eq!(app.expanded.get(&3), Some(&true));
    assert_eq!(app.task_cursor, 3);
    assert_eq!(app.status_message.as_deref(), Some("subtask added"));
    app.finish_delete(vec![task(1, None, "write paper")], day(2026, 5, 24));
    assert_eq!(app.task_cursor, 0);
    assert_eq!(app.status_message.as_deref(), Some("task deleted"));
    app.finish_new_project(vec![Project { id: 11, name: "Thesis".into() }], "Thesis");
    assert_eq!(app.status_message.as_deref(), Some("project 'Thesis' created"));
    app.finish_export("/tmp/x.md");
    assert_eq!(app.status_message.as_deref(), Some("exported to /tmp/x.md"));
    app.finish_update(vec![], None, day(2026, 5, 24));
    assert_eq!(app.status_message.as_deref(), Some("exported to /tmp/x.md"));
}

fn completed(id: i64, title: &str, secs: i64) -> Task {
    let mut t = task(id, None, title);
    t.status = Status::Done;
    t.completed_at = Some(Timestamp::from_unix(secs, 0).unwrap());
    t
}

fn app_with(tasks: Vec<Task>) -> App {
    App::new(Config::default(), tasks, vec![], day(2026, 5, 24))
}

fn titles(app: &App) -> Vec<String> {
    app.visible_rows_at(day(2026, 5, 24))
        .into_iter()
        .map(|r| r.task.title)
        .collect()
}

#[test]
fn views_show_what_they_name() {
    let mut app = app_with(vec![
        completed(1, "old done", 1_779_000_000),
        task(2, None, "open"),
        completed(3, "new done", 1_779_500_000),
    ]);
    assert_eq!(titles(&app), vec!["open"]);
    app.view = View::Done;
    assert_eq!(titles(&app), vec!["old done", "new done"]);
    app.view = View::Log;
    // The rows are the completed tasks, newest first.
    assert_eq!(titles(&app), vec!["new done", "old done"]);
    app.search_query = Some("OLD".into());
    assert_eq!(titles(&app), vec!["old done"]);
    app.view = View::Today;
    app.search_query = None;
    assert!(titles(&app).is_empty());
    app.config.ui.show_done_in_all = true;
    app.view = View::All;
    assert_eq!(titles(&app).len(), 3);
}

#[test]
fn sidebar_down_then_up_returns() {
    let mut app = sample_app();
    app.focus = Focus::Sidebar;
    for start in app.sidebar_selectable_indices() {
        app.sidebar_cursor = start;
        press(&mut app, key('j')).unwrap();
        press(&mut app, key('k')).unwrap();
        assert_eq!(app.sidebar_cursor, start);
        press(&mut app, special(Key::Up)).unwrap();
        press(&mut app, special(Key::Down)).unwrap();
        assert_eq!(app.sidebar_cursor, start);
    }
}

#[test]
fn keys_leave_the_task_list_alone() {
    let mut app = sample_app();
    let before: Vec<String> = app.tasks.iter().map(|t| t.title.clone()).collect();
    for k in [key(' '), key('s'), key('p'), key('d'), key('d')] {
        press(&mut app, k).unwrap();
    }
    let after: Vec<String> = app.tasks.iter().map(|t| t.title.clone()).collect();
    assert_eq!(before, after);
    assert_eq!(app.config.pomodoro.minutes, 25);
}

#[test]
fn collapsing_with_repeated_ids_keeps_the_cursor_on_a_row() {
    // Two roots share id 5; only the first has the subtask. Collapse it from
    // the last row of its subtree's parent and keys keep the cursor on a row.
    let mut app = app_with(vec![
        task(5, None, "first five"),
        task(6, Some(5), "child"),
        task(5, None, "second five"),
    ]);
    assert_eq!(titles(&app), vec!["first five", "child", "second five"]);
    press(&mut app, key('G')).unwrap();
    assert_eq!(app.task_cursor, 2);
    press(&mut app, key('k')).unwrap();
    press(&mut app, key('k')).unwrap();
    assert_eq!(app.task_cursor, 0);
    press(&mut app, key('h')).unwrap();
    assert_eq!(app.expanded.get(&5), Some(&false));
    let rows = app.visible_rows_at(day(2026, 5, 24));
    assert_eq!(rows.len(), 2);
    assert!(app.task_cursor < rows.len());
    press(&mut app, key('G')).unwrap();
    assert_eq!(app.task_cursor, 1);
    press(&mut app, special(Key::Enter)).unwrap();
    assert!(app.task_cursor < app.visible_rows_at(day(2026, 5, 24)).len());
}

#[test]
fn on_key_reads_the_clock_and_quits_on_ctrl_c() {
    let mut app = sample_app();
    let ctrl_c = KeyInput { key: Key::Char('c'), ctrl: true };
    assert!(!app.key_runs_pomodoro(ctrl_c));
    assert!(app.on_key(ctrl_c).is_ok());
    assert!(app.should_quit);
}

#[test]
fn only_enter_on_a_pomo_line_runs_the_pomodoro() {
    let mut app = sample_app();
    assert!(!app.key_runs_pomodoro(special(Key::Enter)));
    press(&mut app, key(':')).unwrap();
    type_line(&mut app, "pomo");
    assert!(app.key_runs_pomodoro(special(Key::Enter)));
    assert!(!app.key_runs_pomodoro(key('x')));
    press(&mut app, special(Key::Backspace)).unwrap();
    assert!(!app.key_runs_pomodoro(special(Key::Enter)));
}

#[test]
fn log_rows_come_newest_first() {
    let mut app = app_with(vec![
        completed(1, "done at five", 5),
        completed(2, "done at ten", 10),
        task(3, None, "open"),
    ]);
    app.view = View::Log;
    assert_eq!(titles(&app), vec!["done at ten", "done at five"]);
    let rows = app.visible_rows_at(day(2026, 5, 24));
    assert!(rows.iter().all(|r| r.depth == 0));
    app.view = View::Done;
    assert_eq!(titles(&app), vec!["done at five", "done at ten"]);
}

#[test]
fn enter_twice_restores_the_row() {
    let mut app = sample_app();
    assert_eq!(app.visible_rows_at(day(2026, 5, 24)).len(), 3);
    press(&mut app, special(Key::Enter)).unwrap();
    assert_eq!(app.expanded.get(&1), Some(&false));
    assert_eq!(app.task_cursor, 0);
    assert_eq!(app.visible_rows_at(day(2026, 5, 24)).len(), 2);
    press(&mut app, special(Key::Enter)).unwrap();
    assert_eq!(app.expanded.get(&1), Some(&true));
    assert_eq!(app.task_cursor, 0);
    assert_eq!(app.focus, Focus::Tasks);
    assert_eq!(app.visible_rows_at(day(2026, 5, 24)).len(), 3);
}
