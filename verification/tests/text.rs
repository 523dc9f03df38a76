use todotui::error::AppError;
use todotui::input::{Focus, Mode};
use todotui::text::{contains_chars, split_words, to_ascii_lowercase, trim};

#[test]
fn trimming_and_words() {
    assert_eq!(trim("  a b \t\n"), "a b");
    assert_eq!(trim("\u{3000}全角\u{3000}"), "全角");
    let v: Vec<char> = " export  project 論文誌 out.md ".chars().collect();
    assert_eq!(split_words(&v), vec!["export", "project", "論文誌", "out.md"]);
    assert_eq!(to_ascii_lowercase("ÄbC"), "Äbc");
    let hay: Vec<char> = "write paper".chars().collect();
    let needle: Vec<char> = "te pa".chars().collect();
    assert!(contains_chars(&hay, &needle));
    assert!(contains_chars(&hay, &Vec::new()));
    assert!(!contains_chars(&needle, &hay));
}

#[test]
fn error_messages() {
    assert_eq!(AppError::InvalidCommand("x".into()).message(), "invalid command: x");
    assert_eq!(AppError::NotFound("project P".into()).message(), "not found: project P");
    assert_eq!(AppError::InvalidInput("bad".into()).message(), "invalid input: bad");
    assert_eq!(AppError::Other("plain".into()).message(), "plain");
    let e = todotui::calendar::Date::parse_ymd("nope").unwrap_err();
    assert!(AppError::DateParse(e).message().starts_with("date parse error: "));
}

#[test]
fn modes_and_focus() {
    assert_eq!(Mode::Command.label(), "COMMAND");
    assert_eq!(Mode::Normal.label(), "NORMAL");
    assert_eq!(Focus::Sidebar.next(), Focus::Tasks);
    assert_eq!(Focus::Details.next().next().next(), Focus::Details);
}

#[test]
fn whitespace_matches_std() {
    for u in (0u32..0x3100).chain([0xFEFF, 0x10FFFF]) {
        if let Some(c) = char::from_u32(u) {
            let s = c.to_string();
            assert_eq!(trim(&s).is_empty(), c.is_whitespace(), "U+{u:04X}");
        }
    }
}
