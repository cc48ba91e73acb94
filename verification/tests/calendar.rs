use git_productivity_analyzer::calendar::{local_time, week_of, LocalTime, Week, FIRST_DAY, LAST_DAY};
use git_productivity_analyzer::model::Time;

fn at(seconds: i64, offset: i32) -> Option<LocalTime> {
    local_time(Time { seconds, offset })
}

#[test]
fn calendar_bounds_are_those_of_the_date_type() {
    assert_eq!(i64::from(chrono::NaiveDate::MIN.to_epoch_days()), FIRST_DAY);
    assert_eq!(i64::from(chrono::NaiveDate::MAX.to_epoch_days()), LAST_DAY);
}

#[test]
fn local_time_of_the_epoch() {
    assert_eq!(at(0, 0), Some(LocalTime { day: 0, hour: 0 }));
    assert_eq!(at(86_399, 0), Some(LocalTime { day: 0, hour: 23 }));
    assert_eq!(at(86_400, 0), Some(LocalTime { day: 1, hour: 0 }));
    assert_eq!(at(-1, 0), Some(LocalTime { day: -1, hour: 23 }));
    assert_eq!(at(-86_401, 0), Some(LocalTime { day: -2, hour: 23 }));
}

#[test]
fn local_time_adds_the_offset() {
    // 2020-01-01T23:30:00Z is already the next day two hours east.
    let t = 1_577_921_400;
    assert_eq!(at(t, 0), Some(LocalTime { day: 18_262, hour: 23 }));
    assert_eq!(at(t, 7_200), Some(LocalTime { day: 18_263, hour: 1 }));
    assert_eq!(at(t, -3_600 * 5), Some(LocalTime { day: 18_262, hour: 18 }));
}

#[test]
fn local_time_agrees_with_the_calendar_crate() {
    for (seconds, offset) in [(1_600_000_000i64, 19_800), (-123_456_789, -34_200), (951_782_400, 0)] {
        let zone = chrono::FixedOffset::east_opt(offset).unwrap();
        let utc = chrono::DateTime::from_timestamp(seconds, 0).unwrap();
        let local = utc.with_timezone(&zone);
        let expect = LocalTime {
            day: i64::from(local.date_naive().to_epoch_days()),
            hour: chrono::Timelike::hour(&local),
        };
        assert_eq!(at(seconds, offset), Some(expect));
    }
}

#[test]
fn unreadable_times_have_no_local_time() {
    assert_eq!(at(0, 86_400), None);
    assert_eq!(at(0, -86_400), None);
    assert!(at(0, 86_399).is_some());
    assert!(at(0, -86_399).is_some());
    assert_eq!(at(i64::MAX, 1), None);
    assert_eq!(at(i64::MIN, -1), None);
    let last_second = LAST_DAY * 86_400 + 86_399;
    assert_eq!(at(last_second, 0), Some(LocalTime { day: LAST_DAY, hour: 23 }));
    assert_eq!(at(last_second + 1, 0), None);
    assert_eq!(at(last_second, 1), None);
    let first_second = FIRST_DAY * 86_400;
    assert_eq!(at(first_second, 0), Some(LocalTime { day: FIRST_DAY, hour: 0 }));
    assert_eq!(at(first_second - 1, 0), None);
    assert_eq!(at(first_second, -1), None);
}

#[test]
fn weeks_follow_iso_8601() {
    // 1 January 2020 was a Wednesday of week 1.
    assert_eq!(week_of(18_262), Some(Week { year: 2020, number: 1 }));
    // 1 January 2021 was a Friday of the last week of 2020.
    assert_eq!(week_of(18_628), Some(Week { year: 2020, number: 53 }));
    // 29 December 2014 was the Monday of week 1 of 2015.
    assert_eq!(week_of(16_433), Some(Week { year: 2015, number: 1 }));
    assert_eq!(week_of(0), Some(Week { year: 1970, number: 1 }));
    assert_eq!(week_of(LAST_DAY + 1), None);
    assert_eq!(week_of(FIRST_DAY - 1), None);
    assert!(week_of(LAST_DAY).is_some());
    assert!(week_of(FIRST_DAY).is_some());
    assert_eq!(week_of(i64::MAX), None);
}
