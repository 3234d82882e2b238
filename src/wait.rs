use vstd::prelude::*;

verus! {

/// Why a queued action stopped.
#[derive(Debug, Clone, Copy, PartialEq, Eq, Structural)]
pub enum StopReason {
    Finished,
    Canceled,
    Paused,
}

/// A running wait: the milliseconds still to go.
#[derive(Debug, Clone, Copy, PartialEq, Eq, Structural)]
pub struct Wait(pub u64);

/// A pausable wait: a pause keeps what remained, and the next start resumes from there.
#[derive(Debug, Clone, Copy, PartialEq, Eq, Structural)]
pub struct WaitAction {
    /// Full length, in milliseconds.
    pub duration: u64,
    /// What remained when the wait was last paused.
    pub current: Option<u64>,
}

impl WaitAction {
    /// A wait of `duration` milliseconds that has not run yet.
    pub fn new(duration: u64) -> (r: WaitAction)
        ensures
            r == (WaitAction { duration, current: None }),
    {
        WaitAction { duration, current: None }
    }

    /// Starts (or resumes) the wait: from what remained at the last pause, else
    /// from the full length.
    pub fn on_start(&mut self) -> (r: Wait)
        ensures
            r.0 == match old(self).current {
                Some(c) => c,
                None => old(self).duration,
            },
            final(self).current is None,
            final(self).duration == old(self).duration,
    {
        let remaining = match self.current {
            Some(c) => c,
            None => self.duration,
        };
        self.current = None;
        Wait(remaining)
    }

    /// Stops the wait; a pause keeps what remained for the next start.
    pub fn on_stop(&mut self, wait: Wait, reason: StopReason)
        ensures
            reason == StopReason::Paused ==> final(self).current == Some(wait.0),
            reason != StopReason::Paused ==> final(self).current == old(self).current,
            final(self).duration == old(self).duration,
    {
        if let StopReason::Paused = reason {
            self.current = Some(wait.0);
        }
    }
}

impl Wait {
    /// Lets `delta` milliseconds pass; says whether the wait is over.
    pub fn tick(&mut self, delta: u64) -> (done: bool)
        ensures
            final(self).0 == if old(self).0 >= delta {
                (old(self).0 - delta) as u64
            } else {
                0u64
            },
            done == (final(self).0 == 0),
    {
        self.0 = if self.0 >= delta {
            self.0 - delta
        } else {
            0
        };
        self.0 == 0
    }
}

} // verus!
