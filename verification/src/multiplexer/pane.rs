use std::path::PathBuf;
use std::time::{Duration, Instant};
use vstd::prelude::*;
use crate::text::{chars_equal, lossy_text, lossy_utf8, string_of, trim_chars, trimmed, chars_of};

verus! {

/// The standard library's monotonic clock reading.
#[verifier::external_type_specification]
#[verifier::external_body]
pub struct ExInstant(Instant);

/// The standard library's owned file-system path.
#[verifier::external_type_specification]
#[verifier::external_body]
pub struct ExPathBuf(PathBuf);

/// `Instant::now`: the current reading of the monotonic clock. It depends on
/// the time of the call, so nothing is stated of it.
#[verifier::external_body]
pub(crate) fn now() -> Instant {
    Instant::now()
}

/// `Instant::elapsed`: the time passed since `t`. It depends on the time of
/// the call, so nothing is stated of it.
#[verifier::external_body]
pub(crate) fn elapsed_since(t: &Instant) -> Duration {
    t.elapsed()
}

/// The length of `d` in whole nanoseconds, as `Duration::as_nanos` gives it.
pub uninterp spec fn nanos_of(d: Duration) -> u128;

/// `Duration::as_nanos`: the length of `d` in whole nanoseconds, a function
/// of `d` alone.
#[verifier::external_body]
pub(crate) fn duration_nanos(d: &Duration) -> (n: u128)
    ensures
        n == nanos_of(*d),
{
    d.as_nanos()
}

/// `PathBuf::clone`: an equal path.
pub assume_specification[ <PathBuf as Clone>::clone ](p: &PathBuf) -> (r: PathBuf)
    ensures
        r == *p,
;

/// `Instant::clone`: the same clock reading.
pub assume_specification[ <Instant as Clone>::clone ](t: &Instant) -> (r: Instant)
    ensures
        r == *t,
;

/// The path that `PathBuf::from` makes of a string with characters `s`.
pub uninterp spec fn path_of(s: Seq<char>) -> PathBuf;

/// `PathBuf::from(String)`: the path spelled by `s`, a function of its
/// characters alone.
#[verifier::external_body]
pub(crate) fn path_from_string(s: String) -> (p: PathBuf)
    ensures
        p == path_of(s@),
{
    PathBuf::from(s)
}

/// What the program in a pane is doing.
#[derive(Debug, Clone, Copy, PartialEq, Eq, Structural)]
pub enum PaneStatus {
    Running,
    Waiting,
    Dead,
}

/// Status after new output: a waiting pane runs again.
pub open spec fn status_after_output(s: PaneStatus) -> PaneStatus {
    if s == PaneStatus::Waiting {
        PaneStatus::Running
    } else {
        s
    }
}

/// Status after a notification (bell, notify sequence, idle): a running pane waits.
pub open spec fn status_after_notify(s: PaneStatus) -> PaneStatus {
    if s == PaneStatus::Running {
        PaneStatus::Waiting
    } else {
        s
    }
}

/// Whether a pane in status `status` with `elapsed` nanoseconds since its
/// last output is idle for a threshold of `threshold` nanoseconds.
pub open spec fn spec_idle(status: PaneStatus, elapsed: u128, threshold: u128) -> bool {
    status == PaneStatus::Running && elapsed >= threshold
}

/// Whether a pane in status `status` with `elapsed` nanoseconds since its
/// last output counts as idle for a threshold of `threshold` nanoseconds:
/// only a running pane can be idle.
pub fn idle_verdict(status: PaneStatus, elapsed: u128, threshold: u128) -> (b: bool)
    ensures
        b == spec_idle(status, elapsed, threshold),
{
    status == PaneStatus::Running && elapsed >= threshold
}

/// State of one pane of a tab.
#[derive(Debug, Clone)]
pub struct PaneState {
    pub id: usize,
    pub status: PaneStatus,
    pub last_output_at: Instant,
    pub cwd: PathBuf,
    pub git_branch: Option<String>,
    /// Optional user-defined name; if None, the cwd folder name is used.
    pub pane_name: Option<String>,
    /// Title set by the running application via OSC 0/2 escape sequence.
    pub terminal_title: Option<String>,
    /// Active text selection: ((start_col, start_row), (end_col, end_row)) in visual coordinates.
    /// None when no selection is active.
    pub selection: Option<((usize, usize), (usize, usize))>,
}

impl PaneState {
    /// A running pane `id` in directory `cwd`, with its output clock started now.
    pub fn new(id: usize, cwd: PathBuf) -> (p: Self)
        ensures
            p.id == id,
            p.status == PaneStatus::Running,
            p.cwd == cwd,
            p.git_branch is None,
            p.pane_name is None,
            p.terminal_title is None,
            p.selection is None,
    {
        PaneState {
            id,
            status: PaneStatus::Running,
            last_output_at: now(),
            cwd,
            git_branch: None,
            pane_name: None,
            terminal_title: None,
            selection: None,
        }
    }

    /// New output arrived at `at`: the output clock restarts from `at` and a
    /// waiting pane runs again.
    pub fn on_output_at(&mut self, at: Instant)
        ensures
            *final(self) == (PaneState {
                status: status_after_output(old(self).status),
                last_output_at: at,
                ..*old(self)
            }),
    {
        self.last_output_at = at;
        if self.status == PaneStatus::Waiting {
            self.status = PaneStatus::Running;
        }
    }

    /// New output arrived: the output clock restarts from the current reading
    /// of the clock (`on_output_at` with that reading) and a waiting pane runs again.
    pub fn on_output(&mut self)
        ensures
            final(self).status == status_after_output(old(self).status),
            *final(self) == (PaneState {
                status: final(self).status,
                last_output_at: final(self).last_output_at,
                ..*old(self)
            }),
    {
        let at = now();
        self.on_output_at(at);
    }

    /// A notification (bell, notify sequence, idle timeout): a running pane waits.
    pub fn on_notify(&mut self)
        ensures
            *final(self) == (PaneState {
                status: status_after_notify(old(self).status),
                ..*old(self)
            }),
    {
        if self.status == PaneStatus::Running {
            self.status = PaneStatus::Waiting;
        }
    }

    /// The program exited: the pane is dead.
    pub fn on_exit(&mut self)
        ensures
            *final(self) == (PaneState { status: PaneStatus::Dead, ..*old(self) }),
    {
        self.status = PaneStatus::Dead;
    }

    /// Whether the pane runs and has had no output for at least `duration`:
    /// a pane that is not running is never idle, a running pane is always
    /// idle for a zero duration, and otherwise the clock decides.
    pub fn is_idle_for(&self, duration: Duration) -> (b: bool)
        ensures
            b ==> self.status == PaneStatus::Running,
            self.status == PaneStatus::Running && nanos_of(duration) == 0 ==> b,
    {
        let elapsed = duration_nanos(&elapsed_since(&self.last_output_at));
        let threshold = duration_nanos(&duration);
        idle_verdict(self.status, elapsed, threshold)
    }
}

/// A dead pane stays dead whatever output or notification follows.
pub proof fn law_dead_is_final(s: PaneStatus)
    requires
        s == PaneStatus::Dead,
    ensures
        status_after_output(s) == PaneStatus::Dead,
        status_after_notify(s) == PaneStatus::Dead,
{
}

/// A running pane that gets a notification waits, and new output makes it run again.
pub proof fn law_output_clears_waiting(s: PaneStatus)
    requires
        s == PaneStatus::Running,
    ensures
        status_after_notify(s) == PaneStatus::Waiting,
        status_after_output(status_after_notify(s)) == PaneStatus::Running,
{
}

/// Output makes a waiting pane run again and changes no other status; a
/// running pane is idle exactly when the elapsed time reaches the threshold.
pub proof fn law_output_and_idle(s: PaneStatus, elapsed: u128, threshold: u128)
    ensures
        status_after_output(s) == if s == PaneStatus::Waiting {
            PaneStatus::Running
        } else {
            s
        },
        spec_idle(PaneStatus::Running, elapsed, threshold) == (elapsed >= threshold),
{
}

/// Only a running pane is ever idle, whatever the clock says.
pub proof fn law_only_running_is_idle(s: PaneStatus, elapsed: u128, threshold: u128)
    requires
        s != PaneStatus::Running,
    ensures
        !spec_idle(s, elapsed, threshold),
{
}

/// The branch that `git rev-parse --abbrev-ref HEAD` reports: its output
/// without surrounding white space, when the command succeeded and that is
/// neither empty nor `HEAD` (a detached head).
pub open spec fn branch_from(success: bool, out: Seq<char>) -> Option<Seq<char>> {
    if !success {
        None
    } else if trimmed(out).len() == 0 || trimmed(out) == "HEAD"@ {
        None
    } else {
        Some(trimmed(out))
    }
}

/// The git branch named by the output of `git rev-parse --abbrev-ref HEAD`
/// (`success` being whether it exited successfully).
pub fn git_branch_from_output(success: bool, stdout: &[u8]) -> (r: Option<String>)
    ensures
        r is Some <==> branch_from(success, lossy_utf8(stdout@)) is Some,
        r matches Some(b) ==> branch_from(success, lossy_utf8(stdout@)) == Some(b@),
{
    if !success {
        return None;
    }
    let text = lossy_text(stdout);
    let t = trim_chars(&chars_of(text.as_str()));
    proof {
        reveal_strlit("HEAD");
    }
    if t.len() == 0 || chars_equal(&t, "HEAD") {
        None
    } else {
        Some(string_of(&t))
    }
}

} // verus!
