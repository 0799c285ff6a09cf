//! Idle detection: the events of the compositor's idle notifier, the
//! notification timeout, and the wall clock.
use vstd::prelude::*;

verus! {

/// A change of the user's activity, stamped with the wall-clock time.
#[derive(Debug, Clone, Copy, PartialEq, Eq)]
pub enum IdleStatus {
    BecameIdle { at_ms: u64 },
    BecameActive { at_ms: u64 },
}

/// Milliseconds since the Unix epoch by the system clock, or `None` when the
/// clock reads a time before the epoch. Nothing is promised of the value: it
/// is the time.
#[verifier::external_body]
fn millis_since_epoch() -> Option<u128> {
    match std::time::SystemTime::now().duration_since(std::time::UNIX_EPOCH) {
        Ok(d) => Some(d.as_millis()),
        Err(_) => None,
    }
}

/// The wall-clock time in milliseconds since the Unix epoch, truncated to 64
/// bits; a clock set before the epoch reads 0.
pub fn current_time_ms() -> u64 {
    match millis_since_epoch() {
        Some(ms) => ms as u64,
        None => 0,
    }
}

/// The idle notification timeout for a threshold given in minutes, in
/// milliseconds as the notifier protocol takes them (32 bits, truncated).
pub fn idle_timeout_ms(threshold_min: u64) -> (r: u32)
    requires
        threshold_min * 60000 <= u64::MAX,
    ensures
        r == (threshold_min * 60000) as u32,
{
    (threshold_min * 60 * 1000) as u32
}

} // verus!
