//! The tracker: which window's session is open, whether the user is idle or
//! the machine asleep, and which sessions each event closes.
//!
//! The daemon feeds every event (a focus change, an idle notification, a
//! suspend signal, the half-minute recheck of suppressed idleness, the minute
//! flush) to `Tracker::step`, together with the observations that the step
//! asks for (`wants_*`), and carries out the outcome: it stores the session
//! that the step closed, restarts the recheck timer, prunes old sessions.
use vstd::prelude::*;
use crate::db::Session;
use crate::hypr::{ActiveWindow, HyprEvent};
use crate::idle::IdleStatus;
use crate::suspend::SuspendEvent;
use crate::text::{chars_of, eq_chars};

verus! {

/// The open session: the focused window and when its session began.
pub struct TrackerState {
    pub current_class: String,
    pub current_title: String,
    pub session_start_ms: u64,
}

pub struct Tracker {
    pub state: TrackerState,
    pub is_idle: bool,
    pub is_sleeping: bool,
    /// Idleness was reported while audio played, and is held back until the
    /// audio stops or the user is active again.
    pub suppress_active: bool,
    /// The day on which old sessions were last pruned.
    pub last_prune_date: String,
}

pub struct TrackerView {
    pub class: Seq<char>,
    pub title: Seq<char>,
    pub start: u64,
    pub is_idle: bool,
    pub is_sleeping: bool,
    pub suppress: bool,
    pub last_prune: Seq<char>,
}

impl View for Tracker {
    type V = TrackerView;

    open spec fn view(&self) -> TrackerView {
        TrackerView {
            class: self.state.current_class@,
            title: self.state.current_title@,
            start: self.state.session_start_ms,
            is_idle: self.is_idle,
            is_sleeping: self.is_sleeping,
            suppress: self.suppress_active,
            last_prune: self.last_prune_date@,
        }
    }
}

pub struct SessionView {
    pub date: Seq<char>,
    pub app_class: Seq<char>,
    pub app_title: Seq<char>,
    pub start_ms: i64,
    pub end_ms: i64,
    pub is_idle: bool,
}

impl View for Session {
    type V = SessionView;

    open spec fn view(&self) -> SessionView {
        SessionView {
            date: self.date@,
            app_class: self.app_class@,
            app_title: self.app_title@,
            start_ms: self.start_ms,
            end_ms: self.end_ms,
            is_idle: self.is_idle,
        }
    }
}

/// One event for the tracker, with what the daemon observed for it.
pub enum TrackerInput {
    /// A compositor event, received at `now_ms`.
    Hypr { event: HyprEvent, now_ms: u64 },
    /// An idle notification; `audio_playing` is read only when
    /// `wants_audio_on_idle`, `window` only when `wants_window_on_active`.
    Idle { status: IdleStatus, audio_playing: bool, window: Option<ActiveWindow> },
    /// A suspend signal; `window` is read only when `wants_window_on_resume`.
    Suspend { event: SuspendEvent, window: Option<ActiveWindow> },
    /// The periodic recheck of suppressed idleness; `audio_playing` is read
    /// only when `wants_audio_on_recheck`.
    Recheck { now_ms: u64, audio_playing: bool },
    /// The periodic flush of the open session.
    Flush { now_ms: u64 },
}

/// What the daemon does after a step.
pub struct StepOutcome {
    /// The session to store.
    pub record: Option<Session>,
    /// Restart the recheck timer.
    pub reset_recheck: bool,
    /// Prune old sessions (the day has changed since the last pruning).
    pub prune: bool,
}

pub struct OutcomeView {
    pub record: Option<SessionView>,
    pub reset_recheck: bool,
    pub prune: bool,
}

pub open spec fn record_view(r: Option<Session>) -> Option<SessionView> {
    match r {
        Some(s) => Some(s@),
        None => None,
    }
}

impl View for StepOutcome {
    type V = OutcomeView;

    open spec fn view(&self) -> OutcomeView {
        OutcomeView {
            record: record_view(self.record),
            reset_recheck: self.reset_recheck,
            prune: self.prune,
        }
    }
}

pub open spec fn idle_class() -> Seq<char> {
    "__idle__"@
}

/// The session that ends at `end_ms`, if it lasted at least a second (an end
/// before the start counts as no time at all).
pub open spec fn closed_session(t: TrackerView, end_ms: u64, was_idle: bool, today: Seq<char>) -> Option<
    SessionView,
> {
    if end_ms < t.start + 1000 {
        None
    } else {
        Some(
            SessionView {
                date: today,
                app_class: if was_idle {
                    idle_class()
                } else {
                    t.class
                },
                app_title: t.title,
                start_ms: t.start as i64,
                end_ms: end_ms as i64,
                is_idle: was_idle,
            },
        )
    }
}

pub open spec fn quiet() -> OutcomeView {
    OutcomeView { record: None, reset_recheck: false, prune: false }
}

pub open spec fn recording(r: Option<SessionView>) -> OutcomeView {
    OutcomeView { record: r, reset_recheck: false, prune: false }
}

/// The tracker focused on `w` from `at` on, or still on its window from `at`
/// on when the focused window could not be read.
pub open spec fn refocused(t: TrackerView, w: Option<ActiveWindow>, at: u64) -> TrackerView {
    match w {
        Some(w) => TrackerView { class: w.class@, title: w.title@, start: at, ..t },
        None => TrackerView { start: at, ..t },
    }
}

/// The tracker's transition: its state after `input` and what the daemon does.
pub open spec fn step_spec(t: TrackerView, input: TrackerInput, today: Seq<char>) -> (
    TrackerView,
    OutcomeView,
) {
    match input {
        TrackerInput::Hypr { event, now_ms } => match event {
            HyprEvent::ActiveWindow { class, title } => {
                if (t.is_idle || t.is_sleeping) && !t.suppress {
                    (t, quiet())
                } else if t.is_idle || t.is_sleeping {
                    (TrackerView { suppress: false, ..t }, quiet())
                } else {
                    (
                        TrackerView {
                            class: class@,
                            title: title@,
                            start: now_ms,
                            suppress: false,
                            ..t
                        },
                        recording(closed_session(t, now_ms, false, today)),
                    )
                }
            },
            HyprEvent::Other(_) => (t, quiet()),
        },
        TrackerInput::Idle { status, audio_playing, window } => {
            if t.is_sleeping {
                (t, quiet())
            } else {
                match status {
                    IdleStatus::BecameIdle { at_ms } => {
                        if t.is_idle {
                            (t, quiet())
                        } else if audio_playing {
                            (
                                TrackerView { suppress: true, ..t },
                                OutcomeView { record: None, reset_recheck: true, prune: false },
                            )
                        } else {
                            (
                                TrackerView { is_idle: true, start: at_ms, ..t },
                                recording(closed_session(t, at_ms, false, today)),
                            )
                        }
                    },
                    IdleStatus::BecameActive { at_ms } => {
                        if t.is_idle {
                            (
                                refocused(TrackerView { is_idle: false, ..t }, window, at_ms),
                                recording(
                                    Some(
                                        SessionView {
                                            date: today,
                                            app_class: idle_class(),
                                            app_title: Seq::empty(),
                                            start_ms: t.start as i64,
                                            end_ms: at_ms as i64,
                                            is_idle: true,
                                        },
                                    ),
                                ),
                            )
                        } else if t.suppress {
                            (TrackerView { suppress: false, ..t }, quiet())
                        } else {
                            (t, quiet())
                        }
                    },
                }
            }
        },
        TrackerInput::Suspend { event, window } => match event {
            SuspendEvent::GoingToSleep { at_ms } => {
                if !t.is_idle {
                    (
                        TrackerView {
                            start: at_ms,
                            is_sleeping: true,
                            is_idle: false,
                            suppress: false,
                            ..t
                        },
                        recording(closed_session(t, at_ms, false, today)),
                    )
                } else {
                    (
                        TrackerView { is_sleeping: true, is_idle: false, suppress: false, ..t },
                        quiet(),
                    )
                }
            },
            SuspendEvent::Resumed { at_ms } => {
                if t.is_sleeping {
                    (refocused(TrackerView { is_sleeping: false, ..t }, window, at_ms), quiet())
                } else {
                    (t, quiet())
                }
            },
        },
        TrackerInput::Recheck { now_ms, audio_playing } => {
            if t.suppress && !audio_playing {
                (
                    TrackerView { is_idle: true, start: now_ms, suppress: false, ..t },
                    recording(closed_session(t, now_ms, false, today)),
                )
            } else {
                (t, quiet())
            }
        },
        TrackerInput::Flush { now_ms } => {
            let (t1, r) = if !t.is_idle && !t.is_sleeping {
                (TrackerView { start: now_ms, ..t }, closed_session(t, now_ms, false, today))
            } else {
                (t, None)
            };
            if today != t.last_prune {
                (
                    TrackerView { last_prune: today, ..t1 },
                    OutcomeView { record: r, reset_recheck: false, prune: true },
                )
            } else {
                (t1, recording(r))
            }
        },
    }
}

/// The tracker's standing invariant: asleep, it is neither idle nor holding
/// idleness back.
pub open spec fn well_formed(t: TrackerView) -> bool {
    t.is_sleeping ==> !t.is_idle && !t.suppress
}

/// Closes the open session at `end_ms`: the session to store, if it lasted at
/// least a second. `was_idle` files it as idle time.
pub fn finalize_session(state: &TrackerState, end_ms: u64, was_idle: bool, today: &str) -> (r:
    Option<Session>)
    ensures
        record_view(r) == closed_session(
            TrackerView {
                class: state.current_class@,
                title: state.current_title@,
                start: state.session_start_ms,
                is_idle: false,
                is_sleeping: false,
                suppress: false,
                last_prune: Seq::empty(),
            },
            end_ms,
            was_idle,
            today@,
        ),
{
    let duration_ms = end_ms.saturating_sub(state.session_start_ms);
    if duration_ms < 1000 {
        return None;
    }
    Some(
        Session {
            date: String::from_str(today),
            app_class: if was_idle {
                String::from_str("__idle__")
            } else {
                state.current_class.clone()
            },
            app_title: state.current_title.clone(),
            start_ms: state.session_start_ms as i64,
            end_ms: end_ms as i64,
            is_idle: was_idle,
        },
    )
}

impl Tracker {
    /// The tracker at start-up, focused on `window` (or on an `unknown`
    /// window when it could not be read) from `now_ms` on.
    pub fn start(window: Option<ActiveWindow>, now_ms: u64, today: &str) -> (t: Tracker)
        ensures
            t@.class == match window {
                Some(w) => w.class@,
                None => "unknown"@,
            },
            t@.title == match window {
                Some(w) => w.title@,
                None => Seq::<char>::empty(),
            },
            t@.start == now_ms,
            !t@.is_idle && !t@.is_sleeping && !t@.suppress,
            t@.last_prune == today@,
            well_formed(t@),
    {
        let state = match window {
            Some(w) => TrackerState {
                current_class: w.class,
                current_title: w.title,
                session_start_ms: now_ms,
            },
            None => TrackerState {
                current_class: String::from_str("unknown"),
                current_title: String::new(),
                session_start_ms: now_ms,
            },
        };
        Tracker {
            state,
            is_idle: false,
            is_sleeping: false,
            suppress_active: false,
            last_prune_date: String::from_str(today),
        }
    }

    /// Whether an idle notification now needs to know if audio is playing.
    pub fn wants_audio_on_idle(&self) -> (r: bool)
        ensures
            r == (!self.is_sleeping && !self.is_idle),
    {
        !self.is_sleeping && !self.is_idle
    }

    /// Whether the recheck now needs to know if audio is playing.
    pub fn wants_audio_on_recheck(&self) -> (r: bool)
        ensures
            r == self.suppress_active,
    {
        self.suppress_active
    }

    /// Whether a return from idleness now needs the focused window.
    pub fn wants_window_on_active(&self) -> (r: bool)
        ensures
            r == (!self.is_sleeping && self.is_idle),
    {
        !self.is_sleeping && self.is_idle
    }

    /// Whether a resume now needs the focused window.
    pub fn wants_window_on_resume(&self) -> (r: bool)
        ensures
            r == self.is_sleeping,
    {
        self.is_sleeping
    }

    fn refocus(&mut self, window: Option<ActiveWindow>, at_ms: u64)
        ensures
            final(self)@ == refocused(old(self)@, window, at_ms),
    {
        match window {
            Some(w) => {
                self.state = TrackerState {
                    current_class: w.class,
                    current_title: w.title,
                    session_start_ms: at_ms,
                };
            },
            None => {
                self.state.session_start_ms = at_ms;
            },
        }
    }

    fn close(&self, end_ms: u64, today: &str) -> (r: Option<Session>)
        ensures
            record_view(r) == closed_session(self@, end_ms, false, today@),
    {
        finalize_session(&self.state, end_ms, false, today)
    }

    /// Applies one event; `today` is the local date (`YYYY-MM-DD`) when it is
    /// handled.
    pub fn step(&mut self, input: TrackerInput, today: &str) -> (out: StepOutcome)
        ensures
            (final(self)@, out@) == step_spec(old(self)@, input, today@),
    {
        let quiet = StepOutcome { record: None, reset_recheck: false, prune: false };
        match input {
            TrackerInput::Hypr { event, now_ms } => match event {
                HyprEvent::ActiveWindow { class, title } => {
                    if (self.is_idle || self.is_sleeping) && !self.suppress_active {
                        return quiet;
                    }
                    self.suppress_active = false;
                    if self.is_idle || self.is_sleeping {
                        return quiet;
                    }
                    let record = self.close(now_ms, today);
                    self.state = TrackerState {
                        current_class: class,
                        current_title: title,
                        session_start_ms: now_ms,
                    };
                    StepOutcome { record, reset_recheck: false, prune: false }
                },
                HyprEvent::Other(_) => quiet,
            },
            TrackerInput::Idle { status, audio_playing, window } => {
                if self.is_sleeping {
                    return quiet;
                }
                match status {
                    IdleStatus::BecameIdle { at_ms } => {
                        if self.is_idle {
                            return quiet;
                        }
                        if audio_playing {
                            self.suppress_active = true;
                            return StepOutcome { record: None, reset_recheck: true, prune: false };
                        }
                        let record = self.close(at_ms, today);
                        self.is_idle = true;
                        self.state.session_start_ms = at_ms;
                        StepOutcome { record, reset_recheck: false, prune: false }
                    },
                    IdleStatus::BecameActive { at_ms } => {
                        if self.is_idle {
                            let idle_session = Session {
                                date: String::from_str(today),
                                app_class: String::from_str("__idle__"),
                                app_title: String::new(),
                                start_ms: self.state.session_start_ms as i64,
                                end_ms: at_ms as i64,
                                is_idle: true,
                            };
                            self.is_idle = false;
                            self.refocus(window, at_ms);
                            StepOutcome { record: Some(idle_session), reset_recheck: false, prune: false }
                        } else {
                            if self.suppress_active {
                                self.suppress_active = false;
                            }
                            quiet
                        }
                    },
                }
            },
            TrackerInput::Suspend { event, window } => match event {
                SuspendEvent::GoingToSleep { at_ms } => {
                    self.suppress_active = false;
                    let mut record = None;
                    if !self.is_idle {
                        record = self.close(at_ms, today);
                        self.state.session_start_ms = at_ms;
                    }
                    self.is_sleeping = true;
                    self.is_idle = false;
                    StepOutcome { record, reset_recheck: false, prune: false }
                },
                SuspendEvent::Resumed { at_ms } => {
                    if self.is_sleeping {
                        self.is_sleeping = false;
                        self.refocus(window, at_ms);
                    }
                    quiet
                },
            },
            TrackerInput::Recheck { now_ms, audio_playing } => {
                if self.suppress_active && !audio_playing {
                    let record = self.close(now_ms, today);
                    self.is_idle = true;
                    self.state.session_start_ms = now_ms;
                    self.suppress_active = false;
                    return StepOutcome { record, reset_recheck: false, prune: false };
                }
                quiet
            },
            TrackerInput::Flush { now_ms } => {
                let mut record = None;
                if !self.is_idle && !self.is_sleeping {
                    record = self.close(now_ms, today);
                    self.state.session_start_ms = now_ms;
                }
                let day = chars_of(today);
                let mut prune = false;
                if !eq_chars(&day, &chars_of(self.last_prune_date.as_str())) {
                    self.last_prune_date = String::from_str(today);
                    prune = true;
                }
                StepOutcome { record, reset_recheck: false, prune }
            },
        }
    }
}

// ---------------------------------------------------------------------------
// Laws of the tracker
// ---------------------------------------------------------------------------

/// Every step keeps the tracker well formed: asleep, it is never idle and
/// never holding idleness back.
pub proof fn law_step_keeps_well_formed(t: TrackerView, input: TrackerInput, today: Seq<char>)
    requires
        well_formed(t),
    ensures
        well_formed(step_spec(t, input, today).0),
{
}

/// While the machine sleeps, nothing but the suspend signals changes the
/// tracker's activity, and no session is stored.
pub proof fn law_sleep_records_nothing(t: TrackerView, input: TrackerInput, today: Seq<char>)
    requires
        well_formed(t),
        t.is_sleeping,
        !(input is Suspend),
    ensures
        step_spec(t, input, today).1.record is None,
        step_spec(t, input, today).0.is_sleeping,
        step_spec(t, input, today).0.start == t.start,
{
}

/// Sessions tile time: a stored session begins where the open session began
/// and ends where the next one begins.
pub proof fn law_sessions_are_contiguous(t: TrackerView, input: TrackerInput, today: Seq<char>)
    requires
        step_spec(t, input, today).1.record is Some,
    ensures
        step_spec(t, input, today).1.record->0.start_ms == t.start as i64,
        step_spec(t, input, today).1.record->0.end_ms == step_spec(t, input, today).0.start as i64,
{
}

/// A stored focus session lasts at least one second, for timestamps in the
/// range of the stored (signed) milliseconds.
pub proof fn law_focus_sessions_last_a_second(
    t: TrackerView,
    input: TrackerInput,
    today: Seq<char>,
)
    requires
        step_spec(t, input, today).1.record matches Some(s) && !s.is_idle,
        t.start <= i64::MAX,
        step_spec(t, input, today).0.start <= i64::MAX,
    ensures
        step_spec(t, input, today).1.record->0.end_ms - step_spec(t, input, today).1.record->0.start_ms
            >= 1000,
{
}

/// Coming back from idleness stores the idle stretch as an idle session, from
/// the moment idleness began to the moment activity resumed.
pub proof fn law_idle_time_is_recorded(
    t: TrackerView,
    at_ms: u64,
    audio: bool,
    window: Option<ActiveWindow>,
    today: Seq<char>,
)
    requires
        well_formed(t),
        t.is_idle,
    ensures
        ({
            let (t2, out) = step_spec(
                t,
                TrackerInput::Idle { status: IdleStatus::BecameActive { at_ms }, audio_playing: audio, window },
                today,
            );
            &&& out.record matches Some(s) && s.is_idle && s.app_class == idle_class() && s.start_ms
                == t.start as i64 && s.end_ms == at_ms as i64
            &&& !t2.is_idle
            &&& t2.start == at_ms
        }),
{
}

/// The observations are read only when the step asks for them: a step whose
/// `wants_*` question is false goes the same way whatever was observed.
pub proof fn law_observations_only_when_wanted(
    t: TrackerView,
    status: IdleStatus,
    event: SuspendEvent,
    audio1: bool,
    audio2: bool,
    window1: Option<ActiveWindow>,
    window2: Option<ActiveWindow>,
    now_ms: u64,
    today: Seq<char>,
)
    ensures
        status is BecameIdle && !(!t.is_sleeping && !t.is_idle) ==> step_spec(
            t,
            TrackerInput::Idle { status, audio_playing: audio1, window: window1 },
            today,
        ) == step_spec(t, TrackerInput::Idle { status, audio_playing: audio2, window: window2 }, today),
        status is BecameIdle ==> step_spec(
            t,
            TrackerInput::Idle { status, audio_playing: audio1, window: window1 },
            today,
        ) == step_spec(t, TrackerInput::Idle { status, audio_playing: audio1, window: window2 }, today),
        status is BecameActive && !(!t.is_sleeping && t.is_idle) ==> step_spec(
            t,
            TrackerInput::Idle { status, audio_playing: audio1, window: window1 },
            today,
        ) == step_spec(t, TrackerInput::Idle { status, audio_playing: audio2, window: window2 }, today),
        status is BecameActive ==> step_spec(
            t,
            TrackerInput::Idle { status, audio_playing: audio1, window: window1 },
            today,
        ) == step_spec(t, TrackerInput::Idle { status, audio_playing: audio2, window: window1 }, today),
        !t.is_sleeping ==> step_spec(t, TrackerInput::Suspend { event, window: window1 }, today)
            == step_spec(t, TrackerInput::Suspend { event, window: window2 }, today),
        !t.suppress ==> step_spec(t, TrackerInput::Recheck { now_ms, audio_playing: audio1 }, today)
            == step_spec(t, TrackerInput::Recheck { now_ms, audio_playing: audio2 }, today),
{
}

/// The minute flush closes the open session at the flush and opens the next
/// one right there, so stored data is never more than a flush interval stale.
pub proof fn law_flush_splits_open_session(t: TrackerView, now_ms: u64, today: Seq<char>)
    requires
        !t.is_idle,
        !t.is_sleeping,
    ensures
        ({
            let (t2, out) = step_spec(t, TrackerInput::Flush { now_ms }, today);
            &&& out.record == closed_session(t, now_ms, false, today)
            &&& t2.start == now_ms
            &&& t2.class == t.class && t2.title == t.title
        }),
{
}

/// Old sessions are pruned once a day: a flush asks for pruning exactly when
/// the day differs from the last pruning's, and a second flush on the same day
/// does not ask again.
pub proof fn law_prune_once_a_day(t: TrackerView, now1: u64, now2: u64, today: Seq<char>)
    ensures
        step_spec(t, TrackerInput::Flush { now_ms: now1 }, today).1.prune == (today != t.last_prune),
        !step_spec(
            step_spec(t, TrackerInput::Flush { now_ms: now1 }, today).0,
            TrackerInput::Flush { now_ms: now2 },
            today,
        ).1.prune,
{
}

/// Idleness is held back only because audio was playing when it was reported.
pub proof fn law_suppression_needs_audio(t: TrackerView, input: TrackerInput, today: Seq<char>)
    requires
        !t.suppress,
        step_spec(t, input, today).0.suppress,
    ensures
        input matches TrackerInput::Idle { status, audio_playing, .. } && audio_playing
            && status is BecameIdle,
{
}

/// A focus change while the user is present closes the open session at the
/// event and opens a new one on exactly the announced window (its class and its
/// title), starting at the event; while idle or asleep it opens nothing.
pub proof fn law_focus_change_opens_the_new_window(
    t: TrackerView,
    class: String,
    title: String,
    now_ms: u64,
    today: Seq<char>,
)
    ensures
        ({
            let (t2, out) = step_spec(
                t,
                TrackerInput::Hypr { event: HyprEvent::ActiveWindow { class, title }, now_ms },
                today,
            );
            &&& !t.is_idle && !t.is_sleeping ==> {
                &&& t2.class == class@
                &&& t2.title == title@
                &&& t2.start == now_ms
                &&& !t2.is_idle && !t2.is_sleeping && !t2.suppress
                &&& t2.last_prune == t.last_prune
                &&& (now_ms >= t.start + 1000 ==> out.record == Some(
                    SessionView {
                        date: today,
                        app_class: t.class,
                        app_title: t.title,
                        start_ms: t.start as i64,
                        end_ms: now_ms as i64,
                        is_idle: false,
                    },
                ))
                &&& (now_ms < t.start + 1000 ==> out.record is None)
            }
            &&& (t.is_idle || t.is_sleeping) ==> {
                &&& out.record is None
                &&& t2.class == t.class && t2.title == t.title && t2.start == t.start
                &&& t2.is_idle == t.is_idle && t2.is_sleeping == t.is_sleeping
            }
        }),
{
}

/// While the user is idle or the machine asleep, the minute flush neither
/// stores a session nor moves the open session's start: only the pruning day
/// can change.
pub proof fn law_flush_keeps_idle_and_sleep(t: TrackerView, now_ms: u64, today: Seq<char>)
    requires
        t.is_idle || t.is_sleeping,
    ensures
        ({
            let (t2, out) = step_spec(t, TrackerInput::Flush { now_ms }, today);
            &&& out.record is None
            &&& t2.start == t.start
            &&& t2.class == t.class && t2.title == t.title
            &&& t2.is_idle == t.is_idle && t2.is_sleeping == t.is_sleeping
            &&& t2.suppress == t.suppress
        }),
{
}

/// An idle stretch is stored whole: going idle at `idle_at`, any flush while
/// idle, and coming back at `back_at` store one idle session from `idle_at` to
/// `back_at`.
pub proof fn law_idle_stretch_survives_flushes(
    t: TrackerView,
    idle_at: u64,
    flush_at: u64,
    back_at: u64,
    window: Option<ActiveWindow>,
    today: Seq<char>,
)
    requires
        !t.is_idle,
        !t.is_sleeping,
    ensures
        ({
            let t1 = step_spec(
                t,
                TrackerInput::Idle { status: IdleStatus::BecameIdle { at_ms: idle_at }, audio_playing: false, window: None },
                today,
            ).0;
            let t2 = step_spec(t1, TrackerInput::Flush { now_ms: flush_at }, today).0;
            let out = step_spec(
                t2,
                TrackerInput::Idle { status: IdleStatus::BecameActive { at_ms: back_at }, audio_playing: false, window },
                today,
            ).1;
            &&& t1.is_idle && t1.start == idle_at
            &&& t2.is_idle && t2.start == idle_at
            &&& out.record == Some(
                SessionView {
                    date: today,
                    app_class: "__idle__"@,
                    app_title: Seq::empty(),
                    start_ms: idle_at as i64,
                    end_ms: back_at as i64,
                    is_idle: true,
                },
            )
        }),
{
}

} // verus!
