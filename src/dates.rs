//! Calendar days as day numbers: whole weeks between two dates, and deadlines.
use vstd::prelude::*;

verus! {

/// A calendar day, as its number in the proleptic Gregorian calendar
/// (1 January of year 1 is day 1).
#[derive(Debug, Clone, Copy, PartialEq, Eq, Structural)]
pub struct CalendarDay {
    pub days_from_ce: i32,
}

/// The day number of the date that `s` writes as `year-month-day`, or `None`
/// where `s` writes no such date.
pub uninterp spec fn day_number_of(s: Seq<char>) -> Option<i32>;

/// Relies on chrono's `NaiveDate::parse_from_str` with the format `%Y-%m-%d`, and on
/// `Datelike::num_days_from_ce` to turn the date it gives into a day number.
#[verifier::external_body]
fn parse_day_number(s: &str) -> (r: Option<i32>)
    ensures
        r == day_number_of(s@),
{
    chrono::NaiveDate::parse_from_str(s, "%Y-%m-%d").ok().map(
        |d| chrono::Datelike::num_days_from_ce(&d),
    )
}

/// Relies on chrono's `Local::now`, and on `Datelike::num_days_from_ce` for the day
/// number of its local date. It reads the clock, so nothing is stated of the value.
#[verifier::external_body]
fn today() -> (r: CalendarDay) {
    CalendarDay {
        days_from_ce: chrono::Datelike::num_days_from_ce(&chrono::Local::now().date_naive()),
    }
}

/// The number of whole weeks in `days`, rounded toward zero.
pub open spec fn whole_weeks(days: int) -> int {
    if days >= 0 {
        days / 7
    } else {
        -((-days) / 7)
    }
}

/// Whole weeks from `b` to `a`, rounded toward zero (negative when `a` comes first).
pub fn weeks_between_days(a: CalendarDay, b: CalendarDay) -> (r: i32)
    ensures
        r == whole_weeks(a.days_from_ce - b.days_from_ce),
{
    let diff: i64 = a.days_from_ce as i64 - b.days_from_ce as i64;
    if diff >= 0 {
        (diff / 7) as i32
    } else {
        let back: i64 = -diff;
        -((back / 7) as i32)
    }
}

/// Whole weeks from the date written in `b` to the one written in `a`, both as
/// `year-month-day`; `None` where either text is no such date.
pub fn weeks_between(a: &str, b: &str) -> (r: Option<i32>)
    ensures
        r == match (day_number_of(a@), day_number_of(b@)) {
            (Some(x), Some(y)) => Some(whole_weeks(x - y) as i32),
            _ => None,
        },
{
    match (parse_day_number(a), parse_day_number(b)) {
        (Some(x), Some(y)) => Some(
            weeks_between_days(CalendarDay { days_from_ce: x }, CalendarDay { days_from_ce: y }),
        ),
        _ => None,
    }
}

/// Something that falls due on a date.
pub trait Deadline {
    /// Whether its date is already behind us, on the local calendar.
    fn is_passed(&self) -> bool;
}

/// A named event on a calendar day.
pub struct ImportantEvent {
    pub name: String,
    pub birthday: CalendarDay,
}

impl ImportantEvent {
    /// Whether the event's day comes before `today`.
    pub fn is_passed_on(&self, today: CalendarDay) -> (r: bool)
        ensures
            r == (self.birthday.days_from_ce < today.days_from_ce),
    {
        self.birthday.days_from_ce < today.days_from_ce
    }
}

impl Deadline for ImportantEvent {
    fn is_passed(&self) -> bool {
        self.is_passed_on(today())
    }
}

} // verus!
