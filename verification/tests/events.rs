use selftrack::hypr::{active_window_from, parse_event, HyprEvent};
use selftrack::idle::{current_time_ms, idle_timeout_ms};
use selftrack::retry::{retry_delay_secs, retry_warns};
use selftrack::suspend::{suspend_event, SuspendEvent};

#[test]
fn activewindow_event_is_parsed() {
    assert_eq!(
        parse_event("activewindow>>kitty,~/src"),
        Some(HyprEvent::ActiveWindow { class: "kitty".to_string(), title: "~/src".to_string() })
    );
}

#[test]
fn title_keeps_later_commas() {
    assert_eq!(
        parse_event("activewindow>>firefox,a, b, c"),
        Some(HyprEvent::ActiveWindow { class: "firefox".to_string(), title: "a, b, c".to_string() })
    );
}

#[test]
fn empty_class_is_unknown_and_missing_title_is_empty() {
    assert_eq!(
        parse_event("activewindow>>,"),
        Some(HyprEvent::ActiveWindow { class: "unknown".to_string(), title: String::new() })
    );
    assert_eq!(
        parse_event("activewindow>>kitty"),
        Some(HyprEvent::ActiveWindow { class: "kitty".to_string(), title: String::new() })
    );
}

#[test]
fn other_events_are_ignored() {
    assert_eq!(parse_event("workspace>>2"), None);
    assert_eq!(parse_event("activewindowv2>>abc"), None);
    assert_eq!(parse_event("no separator"), None);
    assert_eq!(parse_event(""), None);
}

#[test]
fn hyprctl_fields_default() {
    let w = active_window_from(None, None);
    assert_eq!((w.class.as_str(), w.title.as_str()), ("unknown", ""));
    let w = active_window_from(Some("kitty".to_string()), Some("~".to_string()));
    assert_eq!((w.class.as_str(), w.title.as_str()), ("kitty", "~"));
}

#[test]
fn backoff_steps() {
    assert_eq!(retry_delay_secs(1), 5);
    assert_eq!(retry_delay_secs(3), 5);
    assert_eq!(retry_delay_secs(4), 15);
    assert_eq!(retry_delay_secs(6), 15);
    assert_eq!(retry_delay_secs(7), 30);
    assert_eq!(retry_delay_secs(0), 30);
    assert!(retry_warns(1) && retry_warns(3));
    assert!(!retry_warns(4) && !retry_warns(6));
    assert!(retry_warns(7) && retry_warns(13));
    assert!(!retry_warns(8));
}

#[test]
fn idle_timeout_in_milliseconds() {
    assert_eq!(idle_timeout_ms(5), 300_000);
    assert_eq!(idle_timeout_ms(0), 0);
    assert_eq!(idle_timeout_ms(71_583), 4_294_980_000u64 as u32);
}

#[test]
fn clock_is_after_2020() {
    assert!(current_time_ms() > 1_577_836_800_000);
}

#[test]
fn sleep_signal_meaning() {
    assert_eq!(suspend_event(true, 7), SuspendEvent::GoingToSleep { at_ms: 7 });
    assert_eq!(suspend_event(false, 9), SuspendEvent::Resumed { at_ms: 9 });
}
