use todotui::config::{default_pomo_minutes, default_show_done, default_week_days, Config};

#[test]
fn default_config_has_seed_tags() {
    let c = Config::default();
    assert!(c.tags.default.contains(&"work".to_string()));
    assert!(c.projects.default.contains(&"Inbox".to_string()));
    assert_eq!(c.pomodoro.minutes, 25);
}

#[test]
fn default_config_values() {
    let c = Config::default();
    assert!(!c.ui.show_done_in_all);
    assert_eq!(c.ui.week_days, 7);
    assert!(c.keys.is_empty());
    assert!(!default_show_done());
    assert_eq!(default_week_days(), 7);
    assert_eq!(default_pomo_minutes(), 25);
}
