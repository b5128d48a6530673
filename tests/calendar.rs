use tcalc::calendar::{Date, DateTime, Time};

#[test]
fn calendar_validation() {
    assert!(Date::from_calendar(2024, 2, 29).is_some());
    assert!(Date::from_calendar(2023, 2, 29).is_none());
    assert!(Date::from_calendar(1900, 2, 29).is_none());
    assert!(Date::from_calendar(2000, 2, 29).is_some());
    assert!(Date::from_calendar(2023, 4, 31).is_none());
    assert!(Date::from_calendar(2023, 0, 1).is_none());
    assert!(Date::from_calendar(-9999, 1, 1).is_some());
    assert!(Date::from_calendar(10000, 1, 1).is_none());
}

#[test]
fn day_shifts_cross_months_and_years() {
    let d = Date { year: 2023, month: 12, day: 25 };
    assert_eq!(d.add_days(7), Some(Date { year: 2024, month: 1, day: 1 }));
    assert_eq!(d.add_days(-365), Some(Date { year: 2022, month: 12, day: 25 }));
    assert_eq!(Date { year: 9999, month: 12, day: 31 }.add_days(1), None);
    assert_eq!(Date { year: -9999, month: 1, day: 1 }.add_days(-1), None);
    assert_eq!(Date { year: 2024, month: 3, day: 1 }.days_since(Date { year: 2024, month: 2, day: 1 }), 29);
}

#[test]
fn time_wraps_around_midnight() {
    let t = Time { hour: 0, minute: 0, second: 1, nanosecond: 0 };
    assert_eq!(t.add_seconds(-2), Time { hour: 23, minute: 59, second: 59, nanosecond: 0 });
    assert_eq!(t.add_seconds(86400 * 3), t);
}

#[test]
fn datetime_shift_moves_the_date() {
    let dt = DateTime {
        date: Date { year: 2024, month: 12, day: 31 },
        time: Time { hour: 23, minute: 0, second: 0, nanosecond: 0 },
    };
    let later = dt.add_seconds(7200).unwrap();
    assert_eq!(later.date, Date { year: 2025, month: 1, day: 1 });
    assert_eq!(later.time, Time { hour: 1, minute: 0, second: 0, nanosecond: 0 });
    let earlier = dt.add_seconds(-86400 * 366).unwrap();
    assert_eq!(earlier.date, Date { year: 2023, month: 12, day: 31 });
}
