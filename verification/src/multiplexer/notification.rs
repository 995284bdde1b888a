use std::time::Duration;
use vstd::prelude::*;
use crate::multiplexer::pane::{PaneState, PaneStatus, nanos_of, status_after_notify};
use crate::terminal::grid::TermEvent;

verus! {

/// Turns terminal events and idle time into pane status changes.
pub struct NotificationDetector {
    idle_timeout: Duration,
}

/// The status a pane gets from a terminal event: bell and notifications make
/// a running pane wait, exit kills it, the rest change nothing.
pub open spec fn status_after_event(s: PaneStatus, e: TermEvent) -> PaneStatus {
    match e {
        TermEvent::Bell => status_after_notify(s),
        TermEvent::OscNotify(_) => status_after_notify(s),
        TermEvent::Exited => PaneStatus::Dead,
        _ => s,
    }
}

impl NotificationDetector {
    /// A detector that treats `idle_timeout` without output as a notification.
    pub fn new(idle_timeout: Duration) -> (d: Self)
        ensures
            d.idle_timeout() == idle_timeout,
    {
        Self { idle_timeout }
    }

    /// The idle threshold.
    pub closed spec fn idle_timeout(&self) -> Duration {
        self.idle_timeout
    }

    /// The idle threshold.
    pub fn timeout(&self) -> (d: Duration)
        ensures
            d == self.idle_timeout(),
    {
        self.idle_timeout
    }

    /// Applies a terminal event to the pane it came from.
    pub fn process_event(&self, event: TermEvent, pane: &mut PaneState)
        ensures
            *final(pane) == (PaneState {
                status: status_after_event(old(pane).status, event),
                ..*old(pane)
            }),
    {
        match event {
            TermEvent::Bell => pane.on_notify(),
            TermEvent::OscNotify(_) => pane.on_notify(),
            TermEvent::CwdChange(_) => {},
            TermEvent::TitleChange(_) => {},
            TermEvent::Exited => pane.on_exit(),
        }
    }

    /// A running pane without output for the idle threshold starts waiting;
    /// nothing else changes. With a zero threshold every running pane waits;
    /// otherwise whether the threshold has passed is the clock's.
    pub fn check_idle(&self, pane: &mut PaneState)
        ensures
            final(pane).status == old(pane).status || (old(pane).status == PaneStatus::Running
                && final(pane).status == PaneStatus::Waiting),
            *final(pane) == (PaneState { status: final(pane).status, ..*old(pane) }),
            old(pane).status == PaneStatus::Running && nanos_of(self.idle_timeout()) == 0
                ==> final(pane).status == PaneStatus::Waiting,
    {
        if pane.is_idle_for(self.idle_timeout) {
            pane.on_notify();
        }
    }
}

/// A bell or a notification sequence makes a running pane wait and leaves a
/// waiting or dead one as it is; the program's exit makes any pane dead; a
/// title or directory report changes no status.
pub proof fn law_event_status(s: PaneStatus, text: String)
    ensures
        status_after_event(s, TermEvent::Bell) == if s == PaneStatus::Running {
            PaneStatus::Waiting
        } else {
            s
        },
        status_after_event(s, TermEvent::OscNotify(text)) == if s == PaneStatus::Running {
            PaneStatus::Waiting
        } else {
            s
        },
        status_after_event(s, TermEvent::Exited) == PaneStatus::Dead,
        status_after_event(s, TermEvent::TitleChange(text)) == s,
        status_after_event(s, TermEvent::CwdChange(text)) == s,
{
}

} // verus!
