use chrono::Datelike;
use constellations::date::Date;
use constellations::urgency::{due_band, due_band_from, due_band_today, priority_band, Band};

#[test]
fn priority_bands() {
    assert_eq!(priority_band(0), Band::Calm);
    assert_eq!(priority_band(2), Band::Calm);
    assert_eq!(priority_band(3), Band::Mild);
    assert_eq!(priority_band(6), Band::Mild);
    assert_eq!(priority_band(7), Band::Raised);
    assert_eq!(priority_band(9), Band::Raised);
    assert_eq!(priority_band(10), Band::Urgent);
    assert_eq!(priority_band(255), Band::Urgent);
}

#[test]
fn due_bands_by_day_offset() {
    assert_eq!(due_band(-30), Band::Urgent);
    assert_eq!(due_band(0), Band::Urgent);
    assert_eq!(due_band(1), Band::Urgent);
    assert_eq!(due_band(2), Band::Raised);
    assert_eq!(due_band(7), Band::Raised);
    assert_eq!(due_band(8), Band::Mild);
    assert_eq!(due_band(14), Band::Mild);
    assert_eq!(due_band(15), Band::Calm);
    assert_eq!(due_band(100), Band::Calm);
}

#[test]
fn due_band_between_concrete_dates() {
    let from = Date { year: 2024, month: 1, day: 1 };
    let same_day = Date { year: 2024, month: 1, day: 1 };
    let eight_days = Date { year: 2024, month: 1, day: 9 };
    let fifteen_days = Date { year: 2024, month: 1, day: 16 };
    let overdue = Date { year: 2023, month: 12, day: 20 };
    assert_eq!(due_band_from(&same_day, &from), Some(Band::Urgent));
    assert_eq!(due_band_from(&eight_days, &from), Some(Band::Mild));
    assert_eq!(due_band_from(&fifteen_days, &from), Some(Band::Calm));
    assert_eq!(due_band_from(&overdue, &from), Some(Band::Urgent));
}

#[test]
fn due_band_crosses_month_and_year() {
    let from = Date { year: 2024, month: 12, day: 30 };
    let due = Date { year: 2025, month: 1, day: 6 };
    assert_eq!(due_band_from(&due, &from), Some(Band::Raised));
}

#[test]
fn due_band_rejects_impossible_dates() {
    let from = Date { year: 2024, month: 1, day: 1 };
    let bad = Date { year: 2024, month: 13, day: 40 };
    assert_eq!(due_band_from(&bad, &from), None);
}

#[test]
fn due_band_today_tracks_the_clock() {
    let now = chrono::Utc::now().date_naive();
    let soon = now.checked_add_days(chrono::Days::new(10)).expect("in range");
    let due = Date { year: soon.year(), month: soon.month(), day: soon.day() };
    assert_eq!(due_band_today(&due), Some(Band::Mild));
    let past = now.checked_sub_days(chrono::Days::new(5)).expect("in range");
    let overdue = Date { year: past.year(), month: past.month(), day: past.day() };
    assert_eq!(due_band_today(&overdue), Some(Band::Urgent));
}

#[test]
fn date_validation() {
    assert!(Date::new(2024, 2, 29).is_some());
    assert!(Date::new(2023, 2, 29).is_none());
    assert!(Date::new(2024, 13, 1).is_none());
    assert!(Date::new(2024, 0, 1).is_none());
    assert!(Date::new(2024, 1, 0).is_none());
    assert!(Date::new(2024, 4, 31).is_none());
    assert!(Date::new(-4, 2, 29).is_some());
}

#[test]
fn rendered_numbers() {
    assert_eq!(constellations::numerals::render_u64(0), "0");
    assert_eq!(constellations::numerals::render_u64(7), "7");
    assert_eq!(constellations::numerals::render_u64(12345), "12345");
    assert_eq!(constellations::numerals::render_u64(255), "255");
}
