use selftrack::daemon::{finalize_session, Tracker, TrackerInput, TrackerState};
use selftrack::hypr::{ActiveWindow, HyprEvent};
use selftrack::idle::IdleStatus;
use selftrack::suspend::SuspendEvent;

fn win(class: &str, title: &str) -> ActiveWindow {
    ActiveWindow { class: class.to_string(), title: title.to_string() }
}

fn focus(class: &str, title: &str, now_ms: u64) -> TrackerInput {
    TrackerInput::Hypr {
        event: HyprEvent::ActiveWindow { class: class.to_string(), title: title.to_string() },
        now_ms,
    }
}

const DAY: &str = "2026-07-20";

#[test]
fn start_without_window_is_unknown() {
    let t = Tracker::start(None, 5, DAY);
    assert_eq!(t.state.current_class, "unknown");
    assert_eq!(t.state.current_title, "");
    assert_eq!(t.state.session_start_ms, 5);
    assert!(!t.is_idle && !t.is_sleeping && !t.suppress_active);
}

#[test]
fn focus_change_closes_the_session() {
    let mut t = Tracker::start(Some(win("kitty", "~")), 1_000, DAY);
    let out = t.step(focus("firefox", "Docs", 5_000), DAY);
    let s = out.record.unwrap();
    assert_eq!((s.app_class.as_str(), s.app_title.as_str()), ("kitty", "~"));
    assert_eq!((s.start_ms, s.end_ms, s.is_idle), (1_000, 5_000, false));
    assert_eq!(s.date, DAY);
    assert_eq!(t.state.current_class, "firefox");
    assert_eq!(t.state.session_start_ms, 5_000);
}

#[test]
fn sub_second_session_is_dropped() {
    let mut t = Tracker::start(Some(win("kitty", "~")), 1_000, DAY);
    let out = t.step(focus("firefox", "Docs", 1_999), DAY);
    assert!(out.record.is_none());
    assert_eq!(t.state.current_class, "firefox");
    assert_eq!(t.state.session_start_ms, 1_999);
}

#[test]
fn idle_then_active_records_idle_time() {
    let mut t = Tracker::start(Some(win("kitty", "~")), 0, DAY);
    let out = t.step(
        TrackerInput::Idle { status: IdleStatus::BecameIdle { at_ms: 10_000 }, audio_playing: false, window: None },
        DAY,
    );
    assert_eq!(out.record.unwrap().end_ms, 10_000);
    assert!(t.is_idle);
    // Focus changes are ignored while idle.
    assert!(t.step(focus("mpv", "", 12_000), DAY).record.is_none());
    assert_eq!(t.state.current_class, "kitty");
    let out = t.step(
        TrackerInput::Idle {
            status: IdleStatus::BecameActive { at_ms: 70_000 },
            audio_playing: false,
            window: Some(win("firefox", "Docs")),
        },
        DAY,
    );
    let s = out.record.unwrap();
    assert!(s.is_idle);
    assert_eq!((s.app_class.as_str(), s.app_title.as_str()), ("__idle__", ""));
    assert_eq!((s.start_ms, s.end_ms), (10_000, 70_000));
    assert!(!t.is_idle);
    assert_eq!(t.state.current_class, "firefox");
    assert_eq!(t.state.session_start_ms, 70_000);
}

#[test]
fn audio_holds_idleness_back_until_it_stops() {
    let mut t = Tracker::start(Some(win("mpv", "film")), 0, DAY);
    assert!(t.wants_audio_on_idle());
    let out = t.step(
        TrackerInput::Idle { status: IdleStatus::BecameIdle { at_ms: 5_000 }, audio_playing: true, window: None },
        DAY,
    );
    assert!(out.record.is_none());
    assert!(out.reset_recheck);
    assert!(t.suppress_active && !t.is_idle);
    assert!(t.wants_audio_on_recheck());
    // Still playing: nothing changes.
    assert!(t.step(TrackerInput::Recheck { now_ms: 35_000, audio_playing: true }, DAY).record.is_none());
    assert!(t.suppress_active);
    // Audio stopped: the session closes and the user counts as idle.
    let out = t.step(TrackerInput::Recheck { now_ms: 65_000, audio_playing: false }, DAY);
    let s = out.record.unwrap();
    assert_eq!((s.start_ms, s.end_ms, s.is_idle), (0, 65_000, false));
    assert!(t.is_idle && !t.suppress_active);
    assert_eq!(t.state.session_start_ms, 65_000);
}

#[test]
fn activity_clears_suppression() {
    let mut t = Tracker::start(Some(win("mpv", "film")), 0, DAY);
    t.step(TrackerInput::Idle { status: IdleStatus::BecameIdle { at_ms: 5_000 }, audio_playing: true, window: None }, DAY);
    let out = t.step(
        TrackerInput::Idle { status: IdleStatus::BecameActive { at_ms: 6_000 }, audio_playing: false, window: None },
        DAY,
    );
    assert!(out.record.is_none());
    assert!(!t.suppress_active && !t.is_idle);
}

#[test]
fn sleep_and_resume() {
    let mut t = Tracker::start(Some(win("kitty", "~")), 0, DAY);
    let out = t.step(TrackerInput::Suspend { event: SuspendEvent::GoingToSleep { at_ms: 30_000 }, window: None }, DAY);
    assert_eq!(out.record.unwrap().end_ms, 30_000);
    assert!(t.is_sleeping && !t.is_idle);
    // Nothing is recorded while asleep.
    assert!(t.step(TrackerInput::Flush { now_ms: 90_000 }, DAY).record.is_none());
    assert!(t.step(focus("firefox", "", 95_000), DAY).record.is_none());
    assert!(t
        .step(TrackerInput::Idle { status: IdleStatus::BecameIdle { at_ms: 96_000 }, audio_playing: false, window: None }, DAY)
        .record
        .is_none());
    assert!(t.wants_window_on_resume());
    let out = t.step(
        TrackerInput::Suspend { event: SuspendEvent::Resumed { at_ms: 100_000 }, window: Some(win("firefox", "Docs")) },
        DAY,
    );
    assert!(out.record.is_none());
    assert!(!t.is_sleeping);
    assert_eq!(t.state.current_class, "firefox");
    assert_eq!(t.state.session_start_ms, 100_000);
}

#[test]
fn resume_without_window_keeps_the_window() {
    let mut t = Tracker::start(Some(win("kitty", "~")), 0, DAY);
    t.step(TrackerInput::Suspend { event: SuspendEvent::GoingToSleep { at_ms: 30_000 }, window: None }, DAY);
    t.step(TrackerInput::Suspend { event: SuspendEvent::Resumed { at_ms: 50_000 }, window: None }, DAY);
    assert_eq!(t.state.current_class, "kitty");
    assert_eq!(t.state.session_start_ms, 50_000);
}

#[test]
fn flush_splits_the_session_and_prunes_daily() {
    let mut t = Tracker::start(Some(win("kitty", "~")), 0, DAY);
    let out = t.step(TrackerInput::Flush { now_ms: 60_000 }, DAY);
    let s = out.record.unwrap();
    assert_eq!((s.start_ms, s.end_ms), (0, 60_000));
    assert!(!out.prune);
    assert_eq!(t.state.session_start_ms, 60_000);
    let out = t.step(TrackerInput::Flush { now_ms: 120_000 }, "2026-07-21");
    assert!(out.prune);
    assert_eq!(out.record.unwrap().date, "2026-07-21");
    assert_eq!(t.last_prune_date, "2026-07-21");
    assert!(!t.step(TrackerInput::Flush { now_ms: 180_000 }, "2026-07-21").prune);
}

#[test]
fn finalize_session_rules() {
    let st = TrackerState { current_class: "kitty".to_string(), current_title: "~".to_string(), session_start_ms: 5_000 };
    assert!(finalize_session(&st, 5_999, false, DAY).is_none());
    assert!(finalize_session(&st, 1_000, false, DAY).is_none());
    let s = finalize_session(&st, 6_000, true, DAY).unwrap();
    assert_eq!(s.app_class, "__idle__");
    assert!(s.is_idle);
    assert_eq!(s.app_title, "~");
}
