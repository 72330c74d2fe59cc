//! Scheduler state machine: at most one sweep in flight.
//!
//! A recurring timer tick and a manual trigger both go through `try_begin`,
//! which atomically moves `Idle -> Running`. A trigger that finds a sweep
//! already running (or the scheduler stopped) is skipped, not queued; skips
//! are counted so they stay observable. `finish_sweep` returns to `Idle`
//! whatever the sweep's outcome was, and `stop` only prevents new sweeps:
//! an in-flight sweep is allowed to finish.

use vstd::prelude::*;

verus! {

/// Whether a sweep is currently in flight.
#[derive(Clone, Copy, PartialEq, Eq, Structural, Debug)]
pub enum SweepState {
    Idle,
    Running,
}

/// Saturating bump of a counter that only feeds observability.
pub open spec fn skip_bump(n: u64) -> u64 {
    if n < u64::MAX {
        (n + 1) as u64
    } else {
        n
    }
}

/// Tracks the at-most-one-sweep-in-flight discipline together with the
/// counters a summary or log line reports.
pub struct Scheduler {
    pub state: SweepState,
    pub stopped: bool,
    pub started: u64,
    pub completed: u64,
    pub skipped: u64,
}

impl Scheduler {
    /// The counters and the state flag agree: the number of sweeps begun but
    /// not yet finished is one exactly while a sweep is `Running`.
    pub open spec fn wf(self) -> bool {
        &&& self.completed <= self.started
        &&& self.started - self.completed == if self.state is Running {
            1int
        } else {
            0int
        }
    }

    pub fn new() -> (s: Scheduler)
        ensures
            s.wf(),
            s.state is Idle,
            !s.stopped,
            s.started == 0,
            s.completed == 0,
            s.skipped == 0,
    {
        Scheduler { state: SweepState::Idle, stopped: false, started: 0, completed: 0, skipped: 0 }
    }

    /// Check-and-set the running flag. A trigger is accepted exactly when no
    /// sweep is in flight and the scheduler has not been stopped; a refused
    /// trigger changes nothing but the skip counter.
    pub fn try_begin(&mut self) -> (accepted: bool)
        requires
            old(self).wf(),
            old(self).started < u64::MAX,
        ensures
            final(self).wf(),
            accepted == (old(self).state is Idle && !old(self).stopped),
            final(self).stopped == old(self).stopped,
            final(self).completed == old(self).completed,
            accepted ==> final(self).state is Running && final(self).started == old(self).started
                + 1 && final(self).skipped == old(self).skipped,
            !accepted ==> final(self).state == old(self).state && final(self).started == old(
                self,
            ).started && final(self).skipped == skip_bump(old(self).skipped),
    {
        if matches!(self.state, SweepState::Idle) && !self.stopped {
            self.state = SweepState::Running;
            self.started = self.started + 1;
            true
        } else {
            if self.skipped < u64::MAX {
                self.skipped = self.skipped + 1;
            }
            false
        }
    }

    /// A manual, out-of-band trigger: accepted only if no sweep is running,
    /// skipped otherwise.
    pub fn trigger_now(&mut self) -> (accepted: bool)
        requires
            old(self).wf(),
            old(self).started < u64::MAX,
        ensures
            final(self).wf(),
            accepted == (old(self).state is Idle && !old(self).stopped),
            final(self).stopped == old(self).stopped,
            final(self).completed == old(self).completed,
            accepted ==> final(self).state is Running && final(self).started == old(self).started
                + 1 && final(self).skipped == old(self).skipped,
            !accepted ==> final(self).state == old(self).state && final(self).started == old(
                self,
            ).started && final(self).skipped == skip_bump(old(self).skipped),
    {
        self.try_begin()
    }

    /// Return to `Idle` once a sweep ends, successfully or not.
    pub fn finish_sweep(&mut self)
        requires
            old(self).wf(),
            old(self).state is Running,
        ensures
            final(self).wf(),
            final(self).state is Idle,
            final(self).completed == old(self).completed + 1,
            final(self).started == old(self).started,
            final(self).skipped == old(self).skipped,
            final(self).stopped == old(self).stopped,
    {
        self.state = SweepState::Idle;
        self.completed = self.completed + 1;
    }

    /// Cancel future scheduling; an in-flight sweep may still finish.
    pub fn stop(&mut self)
        requires
            old(self).wf(),
        ensures
            final(self).wf(),
            final(self).stopped,
            final(self).state == old(self).state,
            final(self).started == old(self).started,
            final(self).completed == old(self).completed,
            final(self).skipped == old(self).skipped,
    {
        self.stopped = true;
    }
}

/// In every well-formed scheduler state there is at most one sweep in
/// flight: overlapping sweeps cannot arise from `try_begin`/`finish_sweep`.
pub proof fn lemma_at_most_one_in_flight(s: Scheduler)
    requires
        s.wf(),
    ensures
        s.started - s.completed <= 1,
{
}

} // verus!
