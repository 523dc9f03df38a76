use chrono::{Datelike, NaiveDate};
use todotui::calendar::{
    Date, Timestamp, EPOCH_DAY, FIRST_FOUR_DIGIT_DAY, FIRST_FOUR_DIGIT_SEC, LAST_FOUR_DIGIT_DAY,
    LAST_FOUR_DIGIT_SEC, MAX_DAY, MIN_DAY,
};

#[test]
fn day_range_constants_match_chrono() {
    assert_eq!(NaiveDate::MIN.num_days_from_ce(), MIN_DAY);
    assert_eq!(NaiveDate::MAX.num_days_from_ce(), MAX_DAY);
    assert_eq!(NaiveDate::from_ymd_opt(0, 1, 1).unwrap().num_days_from_ce(), FIRST_FOUR_DIGIT_DAY);
    assert_eq!(NaiveDate::from_ymd_opt(9999, 12, 31).unwrap().num_days_from_ce(), LAST_FOUR_DIGIT_DAY);
    assert_eq!(NaiveDate::from_ymd_opt(1970, 1, 1).unwrap().num_days_from_ce() as i64, EPOCH_DAY);
    assert_eq!(
        NaiveDate::from_ymd_opt(0, 1, 1).unwrap().and_hms_opt(0, 0, 0).unwrap().and_utc().timestamp(),
        FIRST_FOUR_DIGIT_SEC
    );
    assert_eq!(
        NaiveDate::from_ymd_opt(9999, 12, 31).unwrap().and_hms_opt(23, 59, 59).unwrap().and_utc().timestamp(),
        LAST_FOUR_DIGIT_SEC
    );
}

#[test]
fn dates_print_parse_and_move() {
    let d = Date::from_ymd(2026, 5, 24).unwrap();
    assert_eq!(d.to_text(), "2026-05-24");
    assert_eq!(Date::parse_ymd("2026-05-24").unwrap(), d);
    assert!(Date::parse_ymd("2026-5-x").is_err());
    assert!(Date::from_ymd(2026, 2, 29).is_none());
    let next = d.add_days(8).unwrap();
    assert_eq!(next.to_text(), "2026-06-01");
    assert_eq!(next.days_since(&d), 8);
    assert!(d.before(&next));
    assert!(!next.before(&d));
    assert!(d.same(&Date::from_day_number(d.day_number()).unwrap()));
    assert!(Date::from_day_number(MAX_DAY).unwrap().add_days(1).is_none());
    assert!(Date::from_day_number(MIN_DAY - 1).is_none());
}

#[test]
fn timestamps_roundtrip_through_rfc3339() {
    let t = Timestamp::from_unix(1_779_580_800, 123_000_000).unwrap();
    let s = t.to_rfc3339();
    assert_eq!(s, "2026-05-24T00:00:00.123+00:00");
    assert_eq!(Timestamp::parse_rfc3339(&s).unwrap(), t);
    assert_eq!(
        Timestamp::parse_rfc3339("2026-05-24T09:00:00+09:00").unwrap().unix_secs(),
        1_779_580_800
    );
    assert!(Timestamp::parse_rfc3339("yesterday").is_err());
    assert!(Timestamp::from_unix(0, 2_000_000_000).is_none());
    assert!(Timestamp::from_unix(59, 1_500_000_000).is_some());
    assert!(Timestamp::from_unix(58, 1_500_000_000).is_none());
    assert!(Timestamp::from_unix(-1, 0).unwrap().before(&Timestamp::from_unix(0, 0).unwrap()));
}

#[test]
fn the_clock_reads_a_valid_instant() {
    let t = Timestamp::now();
    assert!(t.unix_secs() > 1_700_000_000);
    assert!(t.local_date().is_some());
    assert_eq!(todotui::calendar::fmt_local_dt(t).len(), 16);
    let _ = Date::local_today();
}

#[test]
fn local_dates_and_text_stay_within_a_day() {
    let t = Timestamp::now();
    let local = t.local_date().unwrap();
    let utc = Date::from_day_number((t.unix_secs().div_euclid(86400) + EPOCH_DAY) as i32).unwrap();
    assert!(local.days_since(&utc).abs() <= 1);
    let text = todotui::calendar::fmt_local_dt(t);
    assert_eq!(&text[..10], local.to_text());
    assert_eq!(&text[10..11], " ");
    assert_eq!(&text[13..14], ":");
    let last = Timestamp::from_unix((MAX_DAY as i64 - EPOCH_DAY) * 86400, 0).unwrap();
    assert!(last.local_date().is_none());
    let first = Timestamp::from_unix((MIN_DAY as i64 - EPOCH_DAY) * 86400 + 86399, 0).unwrap();
    assert!(first.local_date().is_none());
}

#[test]
fn day_numbers_follow_the_gregorian_count() {
    assert_eq!(Date::from_ymd(1, 1, 1).unwrap().day_number(), 1);
    assert_eq!(Date::from_ymd(1970, 1, 1).unwrap().day_number(), 719163);
    assert_eq!(Date::from_ymd(2024, 2, 29).unwrap().day_number(), 738945);
    assert_eq!(Date::from_ymd(2026, 5, 24).unwrap().day_number(), 739760);
    assert_eq!(Date::from_ymd(-262143, 1, 1).unwrap().day_number(), MIN_DAY);
    assert_eq!(Date::from_ymd(262142, 12, 31).unwrap().day_number(), MAX_DAY);
    assert!(Date::from_ymd(262143, 1, 1).is_none());
    assert!(Date::from_ymd(1900, 2, 29).is_none());
    assert!(Date::from_ymd(2000, 2, 29).is_some());
    assert!(Date::from_ymd(2026, 4, 31).is_none());
    assert!(Date::from_ymd(2026, 13, 1).is_none());
    assert!(Date::from_ymd(2026, 1, 0).is_none());
}
