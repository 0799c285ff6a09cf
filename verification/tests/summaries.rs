use selftrack::db::{group_totals, range_label, summarize, AppSummary, GroupBy, Session};

fn s(date: &str, class: &str, title: &str, start: i64, end: i64, idle: bool) -> Session {
    Session {
        date: date.to_string(),
        app_class: class.to_string(),
        app_title: title.to_string(),
        start_ms: start,
        end_ms: end,
        is_idle: idle,
    }
}

fn row(class: &str, total: i64) -> AppSummary {
    AppSummary { app_class: class.to_string(), total_ms: total }
}

fn day() -> Vec<Session> {
    vec![
        s("2026-07-20", "kitty", "~", 0, 1000, false),
        s("2026-07-20", "firefox", "Docs — Mozilla Firefox", 1000, 4000, false),
        s("2026-07-20", "__idle__", "", 4000, 9000, true),
        s("2026-07-20", "kitty", "vim", 9000, 11000, false),
        s("2026-07-21", "firefox", "News — Mozilla Firefox", 11000, 12000, false),
    ]
}

#[test]
fn summary_splits_active_and_idle() {
    let d = summarize("2026-07-20".to_string(), &day()).unwrap();
    assert_eq!(d.date, "2026-07-20");
    assert_eq!(d.active_ms, 1000 + 3000 + 2000 + 1000);
    assert_eq!(d.idle_ms, 5000);
    assert_eq!(d.pc_on_ms, d.active_ms + d.idle_ms);
}

#[test]
fn empty_summary_is_zero() {
    let d = summarize("x".to_string(), &vec![]).unwrap();
    assert_eq!((d.active_ms, d.idle_ms, d.pc_on_ms), (0, 0, 0));
}

#[test]
fn summary_overflow_is_refused() {
    let big = vec![s("d", "a", "", 0, i64::MAX, false), s("d", "a", "", 0, 10, false)];
    assert!(summarize("d".to_string(), &big).is_none());
    let neg = vec![s("d", "a", "", i64::MIN, 1, false)];
    assert!(summarize("d".to_string(), &neg).is_none());
    let split = vec![s("d", "a", "", 0, i64::MAX, false), s("d", "b", "", 0, 10, true)];
    assert!(summarize("d".to_string(), &split).is_none());
}

#[test]
fn apps_are_ordered_by_time() {
    let rows = group_totals(&day(), &GroupBy::App).unwrap();
    assert_eq!(rows, vec![row("firefox", 4000), row("kitty", 3000)]);
}

#[test]
fn apps_add_up_to_active_time() {
    let rows = group_totals(&day(), &GroupBy::App).unwrap();
    let d = summarize("all".to_string(), &day()).unwrap();
    assert_eq!(rows.iter().map(|r| r.total_ms).sum::<i64>(), d.active_ms);
}

#[test]
fn equal_totals_keep_first_appearance() {
    let ss = vec![s("d", "b", "", 0, 5, false), s("d", "a", "", 0, 5, false), s("d", "c", "", 0, 9, false)];
    let rows = group_totals(&ss, &GroupBy::App).unwrap();
    assert_eq!(rows, vec![row("c", 9), row("b", 5), row("a", 5)]);
}

#[test]
fn pages_of_one_app() {
    let rows = group_totals(&day(), &GroupBy::Page("kitty".to_string())).unwrap();
    assert_eq!(rows, vec![row("vim", 2000), row("~", 1000)]);
    let none = group_totals(&day(), &GroupBy::Page("mpv".to_string())).unwrap();
    assert!(none.is_empty());
}

#[test]
fn days_with_data() {
    let active = group_totals(&day(), &GroupBy::Date(false)).unwrap();
    assert_eq!(active, vec![row("2026-07-20", 6000), row("2026-07-21", 1000)]);
    let idle = group_totals(&day(), &GroupBy::Date(true)).unwrap();
    assert_eq!(idle, vec![row("2026-07-20", 5000)]);
}

#[test]
fn group_overflow_is_refused() {
    let ss = vec![s("d", "a", "", 0, i64::MAX, false), s("d", "a", "", 0, 1, false)];
    assert!(group_totals(&ss, &GroupBy::App).is_none());
    let ok = vec![s("d", "a", "", 0, i64::MAX, false), s("d", "b", "", 0, 1, false)];
    assert_eq!(group_totals(&ok, &GroupBy::App).unwrap(), vec![row("a", i64::MAX), row("b", 1)]);
}

#[test]
fn range_label_joins_with_a_dash() {
    assert_eq!(range_label("2026-07-14", "2026-07-20"), "2026-07-14 — 2026-07-20");
}
