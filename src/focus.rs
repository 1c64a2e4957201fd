//! The focus session: a countdown that the caller advances once a second.
//! Each command is a transition of the session record; running the timer
//! and emitting its notifications is the caller's part.

use vstd::prelude::*;

verus! {

/// The session length before any session is started: 25 minutes.
pub const DEFAULT_TARGET_SECONDS: u64 = 1500;

/// The session as reported to the front-end.
pub struct FocusState {
    pub is_running: bool,
    pub elapsed: u64,
    pub target: u64,
    pub is_strict_mode: bool,
}

/// Sent once when a session reaches its target.
pub struct FocusCompletePayload {
    pub duration: u64,
}

/// The session record: whether it runs, the seconds elapsed, and the
/// seconds it is to last.
pub struct FocusSession {
    pub running: bool,
    pub elapsed: u64,
    pub target: u64,
}

/// What one second of the timer produced: the tick to report while the
/// session runs, and the completion when it reached its target.
pub struct TickOutput {
    pub tick: Option<FocusState>,
    pub complete: Option<FocusCompletePayload>,
}

pub open spec fn state_of(running: bool, elapsed: u64, target: u64, strict: bool) -> FocusState {
    FocusState { is_running: running, elapsed, target, is_strict_mode: strict }
}

impl FocusSession {
    pub fn new() -> (r: FocusSession)
        ensures
            !r.running,
            r.elapsed == 0,
            r.target == DEFAULT_TARGET_SECONDS,
    {
        FocusSession { running: false, elapsed: 0, target: DEFAULT_TARGET_SECONDS }
    }

    /// Starts a session of `target_minutes`; a running session is left as it is.
    pub fn start_focus(&mut self, target_minutes: u32, strict_mode: bool) -> (r: FocusState)
        ensures
            old(self).running ==> *final(self) == *old(self) && r == state_of(
                true,
                old(self).elapsed,
                old(self).target,
                strict_mode,
            ),
            !old(self).running ==> final(self).running && final(self).elapsed == 0
                && final(self).target == target_minutes * 60 && r == state_of(
                true,
                0,
                final(self).target,
                strict_mode,
            ),
    {
        if self.running {
            return FocusState {
                is_running: true,
                elapsed: self.elapsed,
                target: self.target,
                is_strict_mode: strict_mode,
            };
        }
        let target = target_minutes as u64 * 60;
        self.elapsed = 0;
        self.target = target;
        self.running = true;
        FocusState { is_running: true, elapsed: 0, target, is_strict_mode: strict_mode }
    }

    pub fn pause_focus(&mut self) -> (r: FocusState)
        ensures
            *final(self) == (FocusSession { running: false, ..*old(self) }),
            r == state_of(false, old(self).elapsed, old(self).target, false),
    {
        self.running = false;
        FocusState {
            is_running: false,
            elapsed: self.elapsed,
            target: self.target,
            is_strict_mode: false,
        }
    }

    /// Resumes the session; one that had reached its target starts over.
    pub fn resume_focus(&mut self) -> (r: FocusState)
        ensures
            final(self).running,
            final(self).target == old(self).target,
            final(self).elapsed == if old(self).elapsed >= old(self).target {
                0
            } else {
                old(self).elapsed
            },
            r == state_of(true, final(self).elapsed, final(self).target, true),
    {
        if self.elapsed >= self.target {
            self.elapsed = 0;
        }
        self.running = true;
        FocusState {
            is_running: true,
            elapsed: self.elapsed,
            target: self.target,
            is_strict_mode: true,
        }
    }

    /// Stops the session and reports the seconds it had run.
    pub fn stop_focus(&mut self) -> (r: FocusState)
        ensures
            *final(self) == (FocusSession { running: false, elapsed: 0, target: old(self).target }),
            r == state_of(false, old(self).elapsed, old(self).target, false),
    {
        self.running = false;
        let elapsed = self.elapsed;
        self.elapsed = 0;
        FocusState { is_running: false, elapsed, target: self.target, is_strict_mode: false }
    }

    pub fn get_focus_state(&self) -> (r: FocusState)
        ensures
            r == state_of(self.running, self.elapsed, self.target, false),
    {
        FocusState {
            is_running: self.running,
            elapsed: self.elapsed,
            target: self.target,
            is_strict_mode: false,
        }
    }

    /// One second of the timer: a running session counts the second,
    /// reports a tick, and stops with a completion once it reaches its
    /// target; a session that does not run is left as it is.
    pub fn tick(&mut self) -> (r: TickOutput)
        ensures
            !old(self).running ==> *final(self) == *old(self) && r.tick is None && r.complete is None,
            old(self).running ==> {
                let e = if old(self).elapsed < u64::MAX {
                    (old(self).elapsed + 1) as u64
                } else {
                    old(self).elapsed
                };
                &&& final(self).elapsed == e
                &&& final(self).target == old(self).target
                &&& final(self).running == (e < old(self).target)
                &&& r.tick == Some(state_of(true, e, old(self).target, true))
                &&& r.complete == if e >= old(self).target {
                    Some(FocusCompletePayload { duration: e })
                } else {
                    None
                }
            },
    {
        if !self.running {
            return TickOutput { tick: None, complete: None };
        }
        if self.elapsed < u64::MAX {
            self.elapsed = self.elapsed + 1;
        }
        let elapsed = self.elapsed;
        let target = self.target;
        let tick = FocusState { is_running: true, elapsed, target, is_strict_mode: true };
        if elapsed >= target {
            self.running = false;
            TickOutput { tick: Some(tick), complete: Some(FocusCompletePayload { duration: elapsed }) }
        } else {
            TickOutput { tick: Some(tick), complete: None }
        }
    }
}

pub fn is_focus_running(s: &FocusSession) -> (r: bool)
    ensures
        r == s.running,
{
    s.running
}

pub fn get_elapsed_seconds(s: &FocusSession) -> (r: u64)
    ensures
        r == s.elapsed,
{
    s.elapsed
}

/// Strict mode holds exactly while a session runs.
pub fn is_strict_mode(s: &FocusSession) -> (r: bool)
    ensures
        r == s.running,
{
    s.running
}

} // verus!
