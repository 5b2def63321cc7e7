use braindump::journal::entry_text;
use braindump::stamp::{day_text, time_text};
use chrono::{NaiveDate, NaiveTime};

#[test]
fn day_stamps_are_zero_padded() {
    assert_eq!(day_text(2026, 8, 11), "2026-08-11");
    assert_eq!(day_text(7, 1, 2), "0007-01-02");
    assert_eq!(day_text(0, 12, 31), "0000-12-31");
}

#[test]
fn years_outside_four_digits_are_signed() {
    assert_eq!(day_text(-1, 1, 1), "-0001-01-01");
    assert_eq!(day_text(10000, 3, 4), "+10000-03-04");
    assert_eq!(day_text(-12345, 6, 7), "-12345-06-07");
}

#[test]
fn time_stamps_are_zero_padded() {
    assert_eq!(time_text(9, 5, 3, 0), "09:05:03");
    assert_eq!(time_text(23, 59, 59, 999_999_999), "23:59:59");
    assert_eq!(time_text(0, 0, 0, 0), "00:00:00");
}

#[test]
fn a_leap_second_shows_as_sixty() {
    assert_eq!(time_text(23, 59, 59, 1_500_000_000), "23:59:60");
}

#[test]
fn stamps_match_what_chrono_writes() {
    for (y, m, d) in [(2026, 8, 11), (1, 1, 1), (-44, 3, 15), (12000, 2, 29), (9999, 12, 31)] {
        let date = NaiveDate::from_ymd_opt(y, m, d).expect("date");
        assert_eq!(day_text(y, m, d), date.to_string());
    }
    for (h, mi, s, n) in [(0, 0, 0, 0), (7, 8, 9, 10), (23, 59, 59, 1_000_000_000)] {
        let time = NaiveTime::from_hms_nano_opt(h, mi, s, n).expect("time");
        assert_eq!(time_text(h, mi, s, n), time.format("%H:%M:%S").to_string());
    }
}

#[test]
fn a_stamped_entry_is_exact() {
    let day = day_text(2026, 8, 11);
    let time = time_text(14, 37, 1, 0);
    assert_eq!(
        entry_text("", &day, &time, "remember to buy milk"),
        "# 2026-08-11\n\n## 14:37:01\nremember to buy milk\n"
    );
}
