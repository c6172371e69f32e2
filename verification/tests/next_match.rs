use scheduler::{Instant, Schedule};

fn at(year: i32, month: u8, day: u8, hour: u8, minute: u8) -> Instant {
    Instant::new(year, month, day, hour, minute, 0, 0).unwrap()
}

/// Test that checks if the next match is correct.
#[test]
fn expression_1() {
    let schedule = Schedule::new("0 15-18 5 2-4 *");
    let now = time::OffsetDateTime::now_utc();
    let start = Instant::new(
        now.year(),
        u8::from(now.month()),
        now.day(),
        now.hour(),
        now.minute(),
        now.second(),
        now.nanosecond(),
    )
    .unwrap();
    let schedule = schedule.unwrap();
    let next = schedule.get_next_match(start).unwrap();
    assert!(next > start);
    assert_eq!(next.minute(), 0);
    assert!((15..=18).contains(&next.hour()));
    assert_eq!(next.day(), 5);
    assert!((2..=4).contains(&next.month()));
}

/// Test that checks if the next match is correct.
#[test]
fn expression_2() {
    let schedule = Schedule::new("0 15-18 5 2-4 *").unwrap();
    assert_eq!(schedule.get_next_match(at(2023, 1, 1, 0, 0)), Some(at(2023, 2, 5, 15, 0)));
}

/// Test that checks if multiple matches are correct.
#[test]
fn expression_multi_1() {
    let schedule = Schedule::new("0 15-18 5 2-4 *").unwrap();
    let expected = [
        at(2023, 2, 5, 15, 0),
        at(2023, 2, 5, 16, 0),
        at(2023, 2, 5, 17, 0),
        at(2023, 2, 5, 18, 0),
        at(2023, 3, 5, 15, 0),
        at(2023, 3, 5, 16, 0),
        at(2023, 3, 5, 17, 0),
        at(2023, 3, 5, 18, 0),
        at(2023, 4, 5, 15, 0),
        at(2023, 4, 5, 16, 0),
        at(2023, 4, 5, 17, 0),
        at(2023, 4, 5, 18, 0),
        at(2024, 2, 5, 15, 0),
    ];
    let mut date = at(2023, 1, 1, 0, 0);
    for next in expected {
        date = schedule.get_next_match(date).unwrap();
        assert_eq!(date, next);
    }
}

#[test]
fn next_match_is_strictly_later_even_on_a_match() {
    let schedule = Schedule::new("30 10 15 3 *").unwrap();
    let on_it = at(2023, 3, 15, 10, 30);
    assert_eq!(schedule.get_next_match(on_it), Some(at(2024, 3, 15, 10, 30)));
    let just_before = Instant::new(2023, 3, 15, 10, 29, 59, 999_999_999).unwrap();
    assert_eq!(schedule.get_next_match(just_before), Some(on_it));
    let just_after = Instant::new(2023, 3, 15, 10, 30, 0, 1).unwrap();
    assert_eq!(schedule.get_next_match(just_after), Some(at(2024, 3, 15, 10, 30)));
}

#[test]
fn next_match_satisfies_every_field() {
    let schedule = Schedule::new("*/20 3,9 10-12 */5 *").unwrap();
    let mut date = Instant::new(2021, 6, 30, 23, 59, 59, 5).unwrap();
    for _ in 0..200 {
        let next = schedule.get_next_match(date).unwrap();
        assert!(schedule.is_month_valid(&next));
        assert!(schedule.is_day_of_month_valid(&next));
        assert!(schedule.is_hour_valid(&next));
        assert!(schedule.is_minute_valid(&next));
        assert_eq!(next.second(), 0);
        assert_eq!(next.nanosecond(), 0);
        assert!(next > date);
        date = next;
    }
    assert_eq!(date, at(2027, 5, 10, 3, 20));
}

#[test]
fn every_minute_schedule_gives_the_next_minute() {
    let schedule = Schedule::new("* * * * *").unwrap();
    let start = Instant::new(2023, 3, 15, 10, 30, 45, 123_000_000).unwrap();
    assert_eq!(schedule.get_next_match(start), Some(at(2023, 3, 15, 10, 31)));
    assert_eq!(schedule.get_next_match(at(2023, 3, 15, 10, 59)), Some(at(2023, 3, 15, 11, 0)));
    assert_eq!(schedule.get_next_match(at(2023, 3, 15, 23, 59)), Some(at(2023, 3, 16, 0, 0)));
    assert_eq!(schedule.get_next_match(at(2024, 2, 28, 23, 59)), Some(at(2024, 2, 29, 0, 0)));
    assert_eq!(schedule.get_next_match(at(2023, 2, 28, 23, 59)), Some(at(2023, 3, 1, 0, 0)));
}

#[test]
fn every_minute_schedule_skips_december_and_the_31st() {
    let schedule = Schedule::new("* * * * *").unwrap();
    assert_eq!(schedule.get_next_match(at(2023, 12, 5, 10, 0)), Some(at(2024, 1, 1, 0, 0)));
    assert_eq!(schedule.get_next_match(at(2023, 11, 30, 23, 59)), Some(at(2024, 1, 1, 0, 0)));
    assert_eq!(schedule.get_next_match(at(2023, 1, 30, 23, 59)), Some(at(2023, 2, 1, 0, 0)));
    assert_eq!(schedule.get_next_match(at(2023, 1, 31, 12, 0)), Some(at(2023, 2, 1, 0, 0)));
}

#[test]
fn new_year_is_found_from_march() {
    let schedule = Schedule::new("0 0 1 1 *").unwrap();
    assert_eq!(schedule.get_next_match(at(2023, 3, 15, 10, 30)), Some(at(2024, 1, 1, 0, 0)));
    assert_eq!(schedule.get_next_match(at(1999, 3, 1, 0, 0)), Some(at(2000, 1, 1, 0, 0)));
}

#[test]
fn day_that_a_month_lacks_is_skipped() {
    let schedule = Schedule::new("0 0 30 2,3 *").unwrap();
    assert_eq!(schedule.get_next_match(at(2023, 1, 15, 0, 0)), Some(at(2023, 3, 30, 0, 0)));
    assert_eq!(schedule.get_next_match(at(2024, 2, 1, 0, 0)), Some(at(2024, 3, 30, 0, 0)));
    assert_eq!(schedule.get_next_match(at(2023, 3, 30, 0, 0)), Some(at(2024, 3, 30, 0, 0)));
}

#[test]
fn leap_day_matches_in_leap_years_only() {
    let with_march = Schedule::new("0 0 29 2,3 *").unwrap();
    assert_eq!(with_march.get_next_match(at(2023, 1, 1, 0, 0)), Some(at(2023, 3, 29, 0, 0)));
    assert_eq!(with_march.get_next_match(at(2024, 1, 1, 0, 0)), Some(at(2024, 2, 29, 0, 0)));
    assert_eq!(with_march.get_next_match(at(2024, 2, 29, 0, 0)), Some(at(2024, 3, 29, 0, 0)));
    let alone = Schedule::new("0 0 29 2 *").unwrap();
    assert_eq!(alone.get_next_match(at(2023, 3, 1, 0, 0)), Some(at(2024, 2, 29, 0, 0)));
    assert_eq!(alone.get_next_match(at(2024, 3, 1, 0, 0)), Some(at(2028, 2, 29, 0, 0)));
    assert_eq!(alone.get_next_match(at(2096, 3, 1, 0, 0)), Some(at(2104, 2, 29, 0, 0)));
    assert_eq!(alone.get_next_match(at(1996, 3, 1, 0, 0)), Some(at(2000, 2, 29, 0, 0)));
}

#[test]
fn carry_of_the_hour_into_another_month_is_checked() {
    let schedule = Schedule::new("0 5 1,30 4 *").unwrap();
    assert_eq!(schedule.get_next_match(at(2023, 4, 30, 5, 0)), Some(at(2024, 4, 1, 5, 0)));
    assert_eq!(schedule.get_next_match(at(2023, 4, 1, 5, 0)), Some(at(2023, 4, 30, 5, 0)));
}

#[test]
fn carry_of_the_minute_into_another_day_is_checked() {
    let schedule = Schedule::new("0-30 23 10 * *").unwrap();
    assert_eq!(schedule.get_next_match(at(2023, 5, 10, 23, 30)), Some(at(2023, 6, 10, 23, 0)));
    assert_eq!(schedule.get_next_match(at(2023, 5, 10, 23, 29)), Some(at(2023, 5, 10, 23, 30)));
}

#[test]
fn schedule_that_never_matches_gives_none() {
    let never = Schedule::new("0 0 30 2 *").unwrap();
    assert_eq!(never.get_next_match(at(9900, 1, 1, 0, 0)), None);
    let bit_zero_only = Schedule::new("0 0 0 0 *").unwrap();
    assert_eq!(bit_zero_only.get_next_match(at(9990, 6, 1, 0, 0)), None);
}

#[test]
fn search_ends_with_the_calendar() {
    let schedule = Schedule::new("* * * * *").unwrap();
    assert_eq!(schedule.get_next_match(at(9999, 11, 30, 23, 58)), Some(at(9999, 11, 30, 23, 59)));
    assert_eq!(schedule.get_next_match(at(9999, 11, 30, 23, 59)), None);
    assert_eq!(schedule.get_next_match(at(9999, 12, 31, 23, 59)), None);
    let january = Schedule::new("0 0 1 1 *").unwrap();
    assert_eq!(january.get_next_match(at(9998, 6, 1, 0, 0)), Some(at(9999, 1, 1, 0, 0)));
    assert_eq!(january.get_next_match(at(9999, 1, 1, 0, 0)), None);
    assert_eq!(january.get_next_match(at(-9999, 1, 1, 0, 0)), Some(at(-9998, 1, 1, 0, 0)));
}
