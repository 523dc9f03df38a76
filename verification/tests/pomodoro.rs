use todotui::pomodoro::{clock_string, remaining_after, Pomodoro};

#[test]
fn clock_text_is_minutes_and_seconds() {
    assert_eq!(clock_string(0), "00:00");
    assert_eq!(clock_string(65), "01:05");
    assert_eq!(clock_string(1500), "25:00");
    assert_eq!(clock_string(6000), "100:00");
}

#[test]
fn remaining_time_counts_down_to_zero() {
    assert_eq!(remaining_after(60, 0), 60_000_000_000);
    assert_eq!(remaining_after(60, 1_500_000_000), 58_500_000_000);
    assert_eq!(remaining_after(60, 61_000_000_000), 0);
    assert!(Pomodoro::done_with(0));
    assert!(!Pomodoro::done_with(1));
    assert_eq!(Pomodoro::text_of(58_500_000_000), "00:58");
}

#[test]
fn a_new_timer_runs() {
    let p = Pomodoro::new(3, 2);
    assert_eq!(p.task_id, 3);
    assert_eq!(p.duration_secs, 120);
    assert!(!p.is_done());
    assert!(p.remaining() <= 120_000_000_000);
    let s = p.remaining_str();
    assert!(s == "02:00" || s == "01:59", "{}", s);
}
