//! Focus-based time tracking: the verified core of the tracker.
pub mod audio;
pub mod calendar;
pub mod daemon;
pub mod db;
pub mod hypr;
pub mod idle;
pub mod report;
pub mod retry;
pub mod session;
pub mod suspend;
pub mod text;
pub mod tui;
