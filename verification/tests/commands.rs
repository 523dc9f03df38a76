use todotui::commands::{parse, Command, ExportScope};
use todotui::error::AppError;

#[test]
fn parses_basic() {
    assert_eq!(parse("q").unwrap(), Command::Quit);
    assert_eq!(parse("quit").unwrap(), Command::Quit);
    assert_eq!(parse("help").unwrap(), Command::Help);
}

#[test]
fn parses_export_today() {
    assert_eq!(
        parse("export today").unwrap(),
        Command::Export {
            scope: ExportScope::Today,
            file: None,
        }
    );
}

#[test]
fn parses_export_all_to_file() {
    assert_eq!(
        parse("export all out.md").unwrap(),
        Command::Export {
            scope: ExportScope::All,
            file: Some("out.md".to_string()),
        }
    );
}

#[test]
fn parses_export_project() {
    assert_eq!(
        parse("export project 論文誌").unwrap(),
        Command::Export {
            scope: ExportScope::Project("論文誌".to_string()),
            file: None,
        }
    );
}

#[test]
fn parses_due_priority_status() {
    assert_eq!(parse("due today").unwrap(), Command::Due("today".into()));
    assert_eq!(parse("pri high").unwrap(), Command::Priority("high".into()));
    assert_eq!(
        parse("status doing").unwrap(),
        Command::Status("doing".into())
    );
}

#[test]
fn rejects_unknown() {
    assert!(parse("foobar").is_err());
    assert!(parse("").is_err());
    assert!(parse("addtag").is_err());
}

fn invalid_message(line: &str) -> String {
    match parse(line) {
        Err(AppError::InvalidCommand(m)) => m,
        other => panic!("expected an invalid command, got {:?}", other),
    }
}

#[test]
fn invalid_commands_name_the_problem() {
    assert_eq!(invalid_message(""), "empty");
    assert_eq!(invalid_message("   "), "empty");
    assert_eq!(invalid_message("foobar x"), "foobar");
    assert_eq!(invalid_message("addtag"), "usage: :addtag <name>");
    assert_eq!(invalid_message("due"), "usage: :due YYYY-MM-DD|today|tomorrow|none");
    assert_eq!(invalid_message("export project"), "usage: :export project <name> [file]");
    assert_eq!(invalid_message("export soon"), "unknown export scope: soon");
    assert_eq!(
        parse("export").unwrap(),
        Command::Export {
            scope: ExportScope::Visible,
            file: None,
        }
    );
}

#[test]
fn parses_every_command_word() {
    assert_eq!(parse("  wq ").unwrap(), Command::Quit);
    assert_eq!(parse("w").unwrap(), Command::Write);
    assert_eq!(parse("write").unwrap(), Command::Write);
    assert_eq!(parse("clear").unwrap(), Command::ClearFilters);
    assert_eq!(parse("addtag work").unwrap(), Command::AddTag("work".into()));
    assert_eq!(parse("rmtag work").unwrap(), Command::RemoveTag("work".into()));
    assert_eq!(parse("priority low").unwrap(), Command::Priority("low".into()));
    assert_eq!(parse("desc").unwrap(), Command::Description(String::new()));
    assert_eq!(
        parse("description two  words").unwrap(),
        Command::Description("two  words".into())
    );
    assert_eq!(parse("proj none").unwrap(), Command::SetTaskProject("none".into()));
    assert_eq!(parse("newproj Lab").unwrap(), Command::NewProject("Lab".into()));
    assert_eq!(parse("pomo").unwrap(), Command::Pomo);
    assert_eq!(parse("pomostop").unwrap(), Command::PomoStop);
    assert_eq!(
        parse("export visible").unwrap(),
        Command::Export {
            scope: ExportScope::Visible,
            file: None,
        }
    );
    assert_eq!(
        parse("export project Lab notes.md").unwrap(),
        Command::Export {
            scope: ExportScope::Project("Lab".into()),
            file: Some("notes.md".into()),
        }
    );
}
