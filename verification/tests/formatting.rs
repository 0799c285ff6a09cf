use selftrack::report::{clean_page_title, format_duration, format_time, timeline_columns, truncate};
use selftrack::db::Session;

#[test]
fn durations() {
    assert_eq!(format_duration(0), "00:00:00");
    assert_eq!(format_duration(3_661_000), "01:01:01");
    assert_eq!(format_duration(999), "00:00:00");
    assert_eq!(format_duration(360_000_000 + 59_000), "100:00:59");
    assert_eq!(format_duration(-61_000), "00:-1:-1");
    assert_eq!(format_duration(i64::MIN), format!("{:02}:{:02}:{:02}", i64::MIN / 1000 / 3600, (i64::MIN / 1000 % 3600) / 60, i64::MIN / 1000 % 60));
}

#[test]
fn clock_times() {
    assert_eq!(format_time(0), "00:00:00");
    assert_eq!(format_time(86_400_000 + 3_723_000), "01:02:03");
    assert_eq!(format_time(1_753_000_000_000), "08:26:40");
}

#[test]
fn browser_names_are_removed() {
    assert_eq!(clean_page_title("  Docs — Mozilla Firefox "), "Docs");
    assert_eq!(clean_page_title("News - Chromium"), "News");
    assert_eq!(clean_page_title("Mail  — Google Chrome"), "Mail");
    assert_eq!(clean_page_title("kitty"), "kitty");
    assert_eq!(clean_page_title(" — Brave"), "— Brave");
    assert_eq!(clean_page_title("a - Opera - Vivaldi"), "a - Opera");
}

#[test]
fn truncation_by_bytes() {
    assert_eq!(truncate("kitty", 20), "kitty");
    assert_eq!(truncate("abcdef", 6), "abcdef");
    assert_eq!(truncate("abcdefg", 6), "abcde…");
    assert_eq!(truncate("привіт", 6), "пр…");
    assert_eq!(truncate("abc", 0), "…");
    assert_eq!(truncate("", 0), "");
}

#[test]
fn timeline_columns_for_idle_and_focus() {
    let idle = Session {
        date: "d".into(),
        app_class: "__idle__".into(),
        app_title: "x".into(),
        start_ms: 0,
        end_ms: 1,
        is_idle: true,
    };
    assert_eq!(timeline_columns(&idle), ("__idle__".to_string(), String::new()));
    let web = Session { app_class: "firefox".into(), app_title: "Docs — Mozilla Firefox".into(), is_idle: false, ..idle };
    assert_eq!(timeline_columns(&web), ("firefox".to_string(), "Docs".to_string()));
}
