use chrono::{Datelike, NaiveDate};
use isbn_kit::dates::{weeks_between, weeks_between_days, CalendarDay, Deadline, ImportantEvent};

fn day(y: i32, m: u32, d: u32) -> CalendarDay {
    CalendarDay { days_from_ce: NaiveDate::from_ymd_opt(y, m, d).unwrap().num_days_from_ce() }
}

#[test]
fn weeks_between_parsed_dates() {
    assert_eq!(weeks_between("2020-09-13", "1976-09-13"), Some(2295));
    assert_eq!(weeks_between("1976-09-13", "2020-09-13"), Some(-2295));
}

#[test]
fn weeks_between_rounds_toward_zero() {
    assert_eq!(weeks_between("2020-01-14", "2020-01-01"), Some(1));
    assert_eq!(weeks_between("2020-01-01", "2020-01-14"), Some(-1));
    assert_eq!(weeks_between("2020-01-01", "2020-01-01"), Some(0));
}

#[test]
fn weeks_between_rejects_malformed_dates() {
    assert_eq!(weeks_between("2020-13-01", "2020-01-01"), None);
    assert_eq!(weeks_between("2020-01-01", "not a date"), None);
}

#[test]
fn weeks_between_day_numbers() {
    let a = CalendarDay { days_from_ce: 100 };
    let b = CalendarDay { days_from_ce: 86 };
    assert_eq!(weeks_between_days(a, b), 2);
    assert_eq!(weeks_between_days(b, a), -2);
    assert_eq!(weeks_between_days(CalendarDay { days_from_ce: 6 }, CalendarDay { days_from_ce: 0 }), 0);
    assert_eq!(
        weeks_between_days(CalendarDay { days_from_ce: i32::MIN }, CalendarDay { days_from_ce: i32::MAX }),
        -613566756
    );
}

#[test]
fn event_passed_on_a_later_day() {
    let event = ImportantEvent { name: String::from("Eduard"), birthday: day(2014, 7, 8) };
    assert!(event.is_passed_on(day(2014, 7, 9)));
    assert!(!event.is_passed_on(day(2014, 7, 8)));
    assert!(!event.is_passed_on(day(2014, 7, 7)));
    assert_eq!(event.name, "Eduard");
}

#[test]
fn past_event_has_passed_today() {
    let event = ImportantEvent { name: String::from("Eduard"), birthday: day(2014, 7, 8) };
    assert!(event.is_passed());
}
