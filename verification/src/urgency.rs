//! Display urgency bands: one four-way classification shared by the priority
//! field and by due-date proximity, the latter measured in calendar days
//! between two dates.

use vstd::prelude::*;
use crate::date::Date;
use chrono::Datelike;

verus! {

/// One of the four display categories, from most to least pressing.
#[derive(Clone, Copy, Debug, PartialEq, Eq, Structural)]
pub enum Band {
    Urgent,
    Raised,
    Mild,
    Calm,
}

/// The band a priority value falls in: 0-2 calm, 3-6 mild, 7-9 raised,
/// 10 and above urgent.
pub open spec fn spec_priority_band(p: int) -> Band {
    if p <= 2 {
        Band::Calm
    } else if p <= 6 {
        Band::Mild
    } else if p <= 9 {
        Band::Raised
    } else {
        Band::Urgent
    }
}

/// The band for a task due in `days` days (negative: overdue): at most one
/// day away urgent, at most seven raised, at most fourteen mild, else calm.
pub open spec fn spec_due_band(days: int) -> Band {
    if days <= 1 {
        Band::Urgent
    } else if days <= 7 {
        Band::Raised
    } else if days <= 14 {
        Band::Mild
    } else {
        Band::Calm
    }
}

pub fn priority_band(p: u8) -> (b: Band)
    ensures
        b == spec_priority_band(p as int),
{
    if p <= 2 {
        Band::Calm
    } else if p <= 6 {
        Band::Mild
    } else if p <= 9 {
        Band::Raised
    } else {
        Band::Urgent
    }
}

pub fn due_band(days: i64) -> (b: Band)
    ensures
        b == spec_due_band(days as int),
{
    if days <= 1 {
        Band::Urgent
    } else if days <= 7 {
        Band::Raised
    } else if days <= 14 {
        Band::Mild
    } else {
        Band::Calm
    }
}

/// A task due today or already overdue always sits in the most urgent band.
pub proof fn lemma_overdue_is_urgent(days: int)
    requires
        days <= 0,
    ensures
        spec_due_band(days) == Band::Urgent,
{
}

/// The fixed day count the calendar library assigns to a civil date: a
/// function of year, month and day alone.
pub uninterp spec fn day_number(y: int, m: int, d: int) -> int;

/// The span of years the calendar library can represent.
pub open spec fn in_chrono_range(y: int) -> bool {
    -262143 <= y <= 262142
}

/// Relies on chrono::NaiveDate: `from_ymd_opt` accepts exactly the real
/// calendar dates whose year its representation covers, and
/// `signed_duration_since` counts the calendar days between two dates, a
/// function of the two dates alone.
#[verifier::external_body]
fn days_between(from: &Date, to: &Date) -> (r: Option<i64>)
    ensures
        r is Some <==> (from.wf() && in_chrono_range(from.year as int) && to.wf()
            && in_chrono_range(to.year as int)),
        r matches Some(n) ==> n as int == day_number(
            to.year as int,
            to.month as int,
            to.day as int,
        ) - day_number(from.year as int, from.month as int, from.day as int),
{
    let a = chrono::NaiveDate::from_ymd_opt(from.year, from.month, from.day)?;
    let b = chrono::NaiveDate::from_ymd_opt(to.year, to.month, to.day)?;
    Some(b.signed_duration_since(a).num_days())
}

/// Relies on chrono::Utc::now / NaiveDate: the current civil date in UTC is
/// always a real calendar date within the library's representable years.
#[verifier::external_body]
fn today() -> (d: Date)
    ensures
        d.wf(),
        in_chrono_range(d.year as int),
{
    let now = chrono::Utc::now().date_naive();
    Date { year: now.year(), month: now.month(), day: now.day() }
}

/// The urgency band of a due date as seen from a given day, by the count of
/// calendar days between the two.
pub fn due_band_from(due: &Date, from: &Date) -> (r: Option<Band>)
    ensures
        match r {
            Some(b) => b == spec_due_band(
                day_number(due.year as int, due.month as int, due.day as int) - day_number(
                    from.year as int,
                    from.month as int,
                    from.day as int,
                ),
            ),
            None => !(due.wf() && in_chrono_range(due.year as int) && from.wf()
                && in_chrono_range(from.year as int)),
        },
{
    match days_between(from, due) {
        Some(n) => Some(due_band(n)),
        None => None,
    }
}

/// The urgency band of a due date as seen from the current day.
pub fn due_band_today(due: &Date) -> (r: Option<Band>)
    ensures
        match r {
            Some(b) => exists|td: Date|
                td.wf() && in_chrono_range(td.year as int) && b == spec_due_band(
                    day_number(due.year as int, due.month as int, due.day as int) - day_number(
                        td.year as int,
                        td.month as int,
                        td.day as int,
                    ),
                ),
            None => !(due.wf() && in_chrono_range(due.year as int)),
        },
{
    let td = today();
    match due_band_from(due, &td) {
        Some(b) => Some(b),
        None => None,
    }
}

} // verus!
