//! Suspend and resume, as logind's `PrepareForSleep` signal reports them.
use vstd::prelude::*;

verus! {

#[derive(Debug, Clone, Copy, PartialEq, Eq)]
pub enum SuspendEvent {
    GoingToSleep { at_ms: u64 },
    Resumed { at_ms: u64 },
}

/// The event that a `PrepareForSleep(start)` signal received at `now_ms` means:
/// `start` announces the sleep, its absence the resume.
pub fn suspend_event(start: bool, now_ms: u64) -> (r: SuspendEvent)
    ensures
        r == (if start {
            SuspendEvent::GoingToSleep { at_ms: now_ms }
        } else {
            SuspendEvent::Resumed { at_ms: now_ms }
        }),
{
    if start {
        SuspendEvent::GoingToSleep { at_ms: now_ms }
    } else {
        SuspendEvent::Resumed { at_ms: now_ms }
    }
}

} // verus!
