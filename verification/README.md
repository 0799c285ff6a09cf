# selftrack

A focus-based time tracker for Hyprland: it logs which application (and, for
browsers, which page) has the focus, detects idleness through the Wayland
idle notifier, keeps idleness from counting while audio actually plays, and
stores sessions in SQLite for reports, a JSON export and a terminal dashboard.

## Layout

- `src/` — the library, verified with Verus:
  - `daemon.rs` — the tracker state machine (`Tracker::step`) and its laws;
  - `audio.rs` — which `pactl` sink inputs are audible, MPRIS pause matching;
  - `db.rs` — sessions and their summaries (day/range totals, per app, per page);
  - `calendar.rs` — dates and date arithmetic through chrono;
  - `tui.rs` — dashboard navigation, calendar grid, table window;
  - `hypr.rs`, `idle.rs`, `suspend.rs`, `session.rs`, `retry.rs` — compositor
    events, idle timeout, suspend signals, socket discovery, reconnect back-off;
  - `report.rs`, `text.rs` — durations, clock times, page titles, truncation,
    and the character-level string helpers they rest on.
- `app/` — the program: command line, SQLite, D-Bus, Wayland, Hyprland IPC,
  terminal drawing, JSON.
- `tests/` — tests of the library.
