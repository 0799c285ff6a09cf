use selftrack::calendar::{
    iso_date, last_day_of, month_range, parse_date, prune_cutoff, week_range, weekday_from_monday, Date,
};
use selftrack::tui::{month_grid, CalendarCursor};

fn d(year: i32, month: u32, day: u32) -> Date {
    Date { year, month, day }
}

#[test]
fn month_lengths() {
    assert_eq!(last_day_of(2026, 2), 28);
    assert_eq!(last_day_of(2024, 2), 29);
    assert_eq!(last_day_of(1900, 2), 28);
    assert_eq!(last_day_of(2000, 2), 29);
    assert_eq!(last_day_of(2026, 12), 31);
    assert_eq!(last_day_of(2026, 4), 30);
}

#[test]
fn weeks_run_monday_to_sunday() {
    // 2026-07-20 is a Monday.
    assert_eq!(weekday_from_monday(&d(2026, 7, 20)), 0);
    assert_eq!(week_range(&d(2026, 7, 20)), Some((d(2026, 7, 20), d(2026, 7, 26))));
    assert_eq!(week_range(&d(2026, 7, 26)), Some((d(2026, 7, 20), d(2026, 7, 26))));
    assert_eq!(week_range(&d(2026, 1, 1)), Some((d(2025, 12, 29), d(2026, 1, 4))));
    assert_eq!(weekday_from_monday(&d(1, 1, 1)), 0);
}

#[test]
fn months_run_first_to_last() {
    assert_eq!(month_range(&d(2026, 7, 20)), Some((d(2026, 7, 1), d(2026, 7, 31))));
    assert_eq!(month_range(&d(2024, 2, 10)), Some((d(2024, 2, 1), d(2024, 2, 29))));
    assert_eq!(month_range(&d(262142, 12, 1)), None);
}

#[test]
fn dates_are_stored_iso() {
    assert_eq!(iso_date(&d(2026, 7, 5)), "2026-07-05");
    assert_eq!(iso_date(&d(33, 1, 1)), "0033-01-01");
    assert_eq!(iso_date(&d(12345, 1, 1)), "+12345-01-01");
    assert_eq!(iso_date(&d(-5, 1, 1)), "-0005-01-01");
}

#[test]
fn parse_or_today() {
    let today = d(2026, 7, 20);
    assert_eq!(parse_date("2026-07-05", today), d(2026, 7, 5));
    assert_eq!(parse_date("2026-7-5", today), d(2026, 7, 5));
    assert_eq!(parse_date("2026-02-30", today), today);
    assert_eq!(parse_date("yesterday", today), today);
}

#[test]
fn day_arithmetic() {
    let c = CalendarCursor::at(&d(2024, 2, 28));
    let (c, changed) = c.moved(1).unwrap();
    assert!(!changed);
    assert_eq!(c.selected_date(), d(2024, 2, 29));
    let (c, changed) = c.moved(1).unwrap();
    assert!(changed);
    assert_eq!(c.selected_date(), d(2024, 3, 1));
    let (c, _) = c.moved(-7).unwrap();
    assert_eq!(c.selected_date(), d(2024, 2, 23));
    let c = CalendarCursor::at(&d(2025, 12, 31));
    assert_eq!(c.moved(1).unwrap().0.selected_date(), d(2026, 1, 1));
}

#[test]
fn july_grid_starts_on_wednesday() {
    let weeks = month_grid(&d(2026, 7, 1));
    assert_eq!(weeks.len(), 5);
    assert_eq!(weeks[0], vec![0, 0, 1, 2, 3, 4, 5]);
    assert_eq!(weekday_from_monday(&d(2026, 7, 1)), 2);
}

#[test]
fn prune_cutoffs() {
    assert_eq!(prune_cutoff(&d(2026, 7, 20), 0), None);
    assert_eq!(prune_cutoff(&d(2026, 7, 20), 60), Some(d(2026, 5, 21)));
    assert_eq!(prune_cutoff(&d(2026, 7, 20), u64::MAX), None);
}
