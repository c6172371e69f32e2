use scheduler::{Instant, TimeExtension};

fn at(year: i32, month: u8, day: u8, hour: u8, minute: u8) -> Instant {
    Instant::new(year, month, day, hour, minute, 0, 0).unwrap()
}

#[test]
fn instant_new_accepts_calendar_dates_only() {
    assert!(Instant::new(2024, 2, 29, 0, 0, 0, 0).is_some());
    assert!(Instant::new(2023, 2, 29, 0, 0, 0, 0).is_none());
    assert!(Instant::new(2000, 2, 29, 0, 0, 0, 0).is_some());
    assert!(Instant::new(1900, 2, 29, 0, 0, 0, 0).is_none());
    assert!(Instant::new(2023, 4, 31, 0, 0, 0, 0).is_none());
    assert!(Instant::new(2023, 4, 30, 0, 0, 0, 0).is_some());
    assert!(Instant::new(2023, 1, 31, 23, 59, 59, 999_999_999).is_some());
    assert!(Instant::new(2023, 0, 1, 0, 0, 0, 0).is_none());
    assert!(Instant::new(2023, 13, 1, 0, 0, 0, 0).is_none());
    assert!(Instant::new(2023, 1, 0, 0, 0, 0, 0).is_none());
    assert!(Instant::new(2023, 1, 32, 0, 0, 0, 0).is_none());
    assert!(Instant::new(2023, 1, 1, 24, 0, 0, 0).is_none());
    assert!(Instant::new(2023, 1, 1, 0, 60, 0, 0).is_none());
    assert!(Instant::new(2023, 1, 1, 0, 0, 60, 0).is_none());
    assert!(Instant::new(2023, 1, 1, 0, 0, 0, 1_000_000_000).is_none());
    assert!(Instant::new(9999, 12, 31, 0, 0, 0, 0).is_some());
    assert!(Instant::new(10000, 1, 1, 0, 0, 0, 0).is_none());
    assert!(Instant::new(-9999, 1, 1, 0, 0, 0, 0).is_some());
    assert!(Instant::new(-10000, 1, 1, 0, 0, 0, 0).is_none());
}

#[test]
fn month_lengths_follow_the_calendar() {
    let lengths = [31u8, 28, 31, 30, 31, 30, 31, 31, 30, 31, 30, 31];
    for (i, length) in lengths.iter().enumerate() {
        let month = i as u8 + 1;
        assert!(Instant::new(2023, month, *length, 0, 0, 0, 0).is_some());
        assert!(Instant::new(2023, month, *length + 1, 0, 0, 0, 0).is_none());
    }
    for (year, leap) in [(2024, true), (2100, false), (2400, true), (-4, true), (0, true), (-100, false)] {
        assert_eq!(Instant::new(year, 2, 29, 0, 0, 0, 0).is_some(), leap);
    }
}

#[test]
fn instant_gives_back_its_fields() {
    let t = Instant::new(2023, 7, 14, 9, 41, 27, 5).unwrap();
    assert_eq!(t.year(), 2023);
    assert_eq!(t.month(), 7);
    assert_eq!(t.day(), 14);
    assert_eq!(t.hour(), 9);
    assert_eq!(t.minute(), 41);
    assert_eq!(t.second(), 27);
    assert_eq!(t.nanosecond(), 5);
}

#[test]
fn starts_of_units_clear_what_is_below() {
    let t = Instant::new(2023, 7, 14, 9, 41, 27, 5).unwrap();
    let mut minute = t;
    minute.to_start_of_minute();
    assert_eq!(minute, at(2023, 7, 14, 9, 41));
    let mut hour = t;
    hour.to_start_of_hour();
    assert_eq!(hour, at(2023, 7, 14, 9, 0));
    let mut day = t;
    day.to_start_of_day();
    assert_eq!(day, at(2023, 7, 14, 0, 0));
    let mut month = t;
    month.to_start_of_month();
    assert_eq!(month, at(2023, 7, 1, 0, 0));
}

#[test]
fn next_minute_reports_a_new_hour() {
    let mut t = Instant::new(2023, 7, 14, 9, 41, 27, 5).unwrap();
    assert!(!t.next_minute());
    assert_eq!(t, at(2023, 7, 14, 9, 42));
    let mut t = Instant::new(2023, 7, 14, 9, 59, 59, 0).unwrap();
    assert!(t.next_minute());
    assert_eq!(t, at(2023, 7, 14, 10, 0));
    let mut t = at(2023, 12, 31, 23, 59);
    assert!(t.next_minute());
    assert_eq!(t, at(2024, 1, 1, 0, 0));
}

#[test]
fn next_hour_reports_a_new_day() {
    let mut t = Instant::new(2023, 7, 14, 9, 41, 27, 5).unwrap();
    assert!(!t.next_hour());
    assert_eq!(t, at(2023, 7, 14, 10, 0));
    let mut t = at(2023, 7, 14, 23, 1);
    assert!(t.next_hour());
    assert_eq!(t, at(2023, 7, 15, 0, 0));
    let mut t = at(2023, 4, 30, 23, 0);
    assert!(t.next_hour());
    assert_eq!(t, at(2023, 5, 1, 0, 0));
}

#[test]
fn next_day_reports_a_new_month() {
    let mut t = Instant::new(2023, 7, 14, 9, 41, 27, 5).unwrap();
    assert!(!t.next_day());
    assert_eq!(t, at(2023, 7, 15, 0, 0));
    let mut t = at(2024, 2, 28, 12, 0);
    assert!(!t.next_day());
    assert_eq!(t, at(2024, 2, 29, 0, 0));
    let mut t = at(2023, 2, 28, 12, 0);
    assert!(t.next_day());
    assert_eq!(t, at(2023, 3, 1, 0, 0));
    let mut t = at(2023, 12, 31, 0, 0);
    assert!(t.next_day());
    assert_eq!(t, at(2024, 1, 1, 0, 0));
}

#[test]
fn next_month_starts_the_following_month() {
    let mut t = Instant::new(2023, 1, 31, 9, 41, 27, 5).unwrap();
    t.next_month();
    assert_eq!(t, at(2023, 2, 1, 0, 0));
    t.next_month();
    assert_eq!(t, at(2023, 3, 1, 0, 0));
    let mut t = at(2024, 2, 10, 0, 0);
    t.next_month();
    assert_eq!(t, at(2024, 3, 1, 0, 0));
    let mut t = at(2023, 12, 25, 0, 0);
    t.next_month();
    assert_eq!(t, at(2024, 1, 1, 0, 0));
}

#[test]
fn a_year_of_months_comes_round() {
    let mut t = at(2023, 5, 17, 3, 3);
    for _ in 0..12 {
        t.next_month();
    }
    assert_eq!(t, at(2024, 5, 1, 0, 0));
    let mut t = at(2023, 12, 31, 0, 0);
    let mut crossings = 0;
    for _ in 0..366 {
        if t.next_day() {
            crossings += 1;
        }
    }
    assert_eq!(t, at(2024, 12, 31, 0, 0));
    assert_eq!(crossings, 12);
}

#[test]
fn calendar_ends_with_its_last_year() {
    let last = Instant::new(9999, 12, 31, 23, 59, 30, 0).unwrap();
    assert!(!last.has_next_minute());
    assert!(!last.has_next_hour());
    assert!(!last.has_next_day());
    assert!(!last.has_next_month());
    let t = at(9999, 12, 31, 23, 58);
    assert!(t.has_next_minute());
    assert!(!t.has_next_hour());
    let t = at(9999, 12, 31, 22, 59);
    assert!(t.has_next_hour());
    assert!(!t.has_next_day());
    let t = at(9999, 12, 30, 23, 59);
    assert!(t.has_next_day());
    assert!(!t.has_next_month());
    let mut t = at(9999, 11, 30, 23, 59);
    assert!(t.has_next_month());
    t.next_month();
    assert_eq!(t, at(9999, 12, 1, 0, 0));
    let mut t = at(9999, 12, 31, 23, 58);
    assert!(!t.next_minute());
    assert_eq!(t, at(9999, 12, 31, 23, 59));
}
