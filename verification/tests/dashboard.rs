use selftrack::calendar::Date;
use selftrack::tui::{calendar_weeks, table_window, visible_rows_for, CalendarCursor, Focus, Key, KeyAction, TableState};

fn d(year: i32, month: u32, day: u32) -> Date {
    Date { year, month, day }
}

#[test]
fn cursor_moves_by_days_and_weeks() {
    let c = CalendarCursor::at(&d(2026, 7, 31));
    assert_eq!(c.cal_month, d(2026, 7, 1));
    assert_eq!(c.selected_date(), d(2026, 7, 31));
    let (next, changed) = c.moved(1).unwrap();
    assert!(changed);
    assert_eq!(next.cal_month, d(2026, 8, 1));
    assert_eq!(next.selected_date(), d(2026, 8, 1));
    let (back, changed) = next.moved(-1).unwrap();
    assert!(changed);
    assert_eq!(back, c);
    let (week, changed) = c.moved(-7).unwrap();
    assert!(!changed);
    assert_eq!(week.selected_date(), d(2026, 7, 24));
    let (week, _) = week.moved(7).unwrap();
    assert_eq!(week, c);
}

#[test]
fn cursor_stops_at_the_calendar_edge() {
    let c = CalendarCursor::at(&d(262142, 12, 31));
    assert!(c.moved(1).is_none());
    let c = CalendarCursor::at(&d(-262143, 1, 1));
    assert!(c.moved(-1).is_none());
}

fn table(n_apps: usize) -> TableState {
    TableState::reset(Focus::Detail, n_apps)
}

#[test]
fn rows_with_an_expanded_app() {
    let mut t = table(3);
    assert_eq!(t.row_count(), 3);
    assert!(t.wants_pages_for(1));
    t.toggle_expand(1, 2);
    assert_eq!(t.row_count(), 5);
    assert_eq!(t.row_to_app_idx(0), Some(0));
    assert_eq!(t.row_to_app_idx(1), Some(1));
    assert_eq!(t.row_to_app_idx(2), None);
    assert_eq!(t.row_to_app_idx(3), None);
    assert_eq!(t.row_to_app_idx(4), Some(2));
    assert!(!t.wants_pages_for(1));
    t.toggle_expand(1, 0);
    assert_eq!(t.expanded_app, None);
    assert_eq!(t.row_count(), 3);
}

#[test]
fn keys_in_the_calendar() {
    let mut t = TableState::reset(Focus::Calendar, 2);
    assert_eq!(t.on_key(Key::Left, 5), KeyAction::MoveDays(-1));
    assert_eq!(t.on_key(Key::Char('l'), 5), KeyAction::MoveDays(1));
    assert_eq!(t.on_key(Key::Up, 5), KeyAction::MoveDays(-7));
    assert_eq!(t.on_key(Key::Char('j'), 5), KeyAction::MoveDays(7));
    assert_eq!(t.on_key(Key::Other, 5), KeyAction::Nothing);
    assert_eq!(t.on_key(Key::Tab, 5), KeyAction::Nothing);
    assert_eq!(t.focus, Focus::Detail);
    assert_eq!(t.on_key(Key::Esc, 5), KeyAction::Nothing);
    assert_eq!(t.focus, Focus::Calendar);
    assert_eq!(t.on_key(Key::Esc, 5), KeyAction::Quit);
    assert_eq!(t.on_key(Key::Char('q'), 5), KeyAction::Quit);
}

#[test]
fn keys_in_the_list_scroll() {
    let mut t = table(4);
    assert_eq!(t.on_key(Key::Left, 2), KeyAction::Nothing);
    t.on_key(Key::Down, 2);
    assert_eq!((t.selected, t.scroll), (1, 0));
    t.on_key(Key::Down, 2);
    assert_eq!((t.selected, t.scroll), (2, 1));
    t.on_key(Key::Char('j'), 2);
    assert_eq!((t.selected, t.scroll), (3, 2));
    t.on_key(Key::Down, 2);
    assert_eq!((t.selected, t.scroll), (3, 2));
    assert_eq!(t.on_key(Key::Enter, 2), KeyAction::Toggle(3));
    t.on_key(Key::Up, 2);
    t.on_key(Key::Up, 2);
    assert_eq!((t.selected, t.scroll), (1, 1));
    t.on_key(Key::Char('k'), 2);
    assert_eq!((t.selected, t.scroll), (0, 0));
    t.on_key(Key::Up, 2);
    assert_eq!((t.selected, t.scroll), (0, 0));
}

#[test]
fn enter_on_a_page_row_does_nothing() {
    let mut t = table(2);
    t.toggle_expand(0, 3);
    t.on_key(Key::Down, 10);
    assert_eq!(t.on_key(Key::Enter, 10), KeyAction::Nothing);
    let mut empty = table(0);
    assert_eq!(empty.on_key(Key::Enter, 10), KeyAction::Nothing);
}

#[test]
fn month_grid() {
    // July 2026 starts on a Wednesday.
    let weeks = calendar_weeks(2, 31);
    assert_eq!(weeks.len(), 5);
    assert_eq!(weeks[0], vec![0, 0, 1, 2, 3, 4, 5]);
    assert_eq!(weeks[4], vec![27, 28, 29, 30, 31, 0, 0]);
    // February 2021 starts on a Monday and fills four weeks exactly.
    let weeks = calendar_weeks(0, 28);
    assert_eq!(weeks.len(), 4);
    assert_eq!(weeks[3], vec![22, 23, 24, 25, 26, 27, 28]);
    let weeks = calendar_weeks(6, 31);
    assert_eq!(weeks.len(), 6);
    assert_eq!(weeks[5], vec![30, 31, 0, 0, 0, 0, 0]);
}

#[test]
fn table_windows() {
    assert_eq!(table_window(10, 4, 0), (0, 4));
    assert_eq!(table_window(10, 4, 8), (6, 10));
    assert_eq!(table_window(3, 4, 2), (0, 3));
    assert_eq!(table_window(0, 0, 5), (0, 0));
}

#[test]
fn visible_rows() {
    assert_eq!(visible_rows_for(40), 26);
    assert_eq!(visible_rows_for(15), 1);
    assert_eq!(visible_rows_for(3), 1);
}
