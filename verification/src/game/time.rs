use vstd::prelude::*;

verus! {

/// A player's clock. Instants and durations are milliseconds on one
/// monotonic clock.
#[derive(Clone, Copy, Debug)]
pub struct TimeControl {
    pub limit: u64,
    pub started_at: Option<u64>,
}

/// How much time has passed since `started_at`, as of `now`.
pub open spec fn elapsed_since(started_at: Option<u64>, now: u64) -> nat {
    match started_at {
        None => 0,
        Some(start) => if now >= start {
            (now - start) as nat
        } else {
            0
        },
    }
}

/// The time left of a clock's limit, as of `now`.
pub open spec fn remaining_spec(t: TimeControl, now: u64) -> u64 {
    if elapsed_since(t.started_at, now) >= t.limit {
        0
    } else {
        (t.limit - elapsed_since(t.started_at, now)) as u64
    }
}

/// A running clock runs down: from its start, the time left is the limit
/// less the time passed (or none once that is spent), and it never grows
/// as time goes on.
pub proof fn lemma_clock_runs_down(t: TimeControl, start: u64, now1: u64, now2: u64)
    requires
        t.started_at == Some(start),
        start <= now1 <= now2,
    ensures
        remaining_spec(t, now1) == if now1 - start >= t.limit {
            0
        } else {
            t.limit - (now1 - start)
        },
        remaining_spec(t, now2) <= remaining_spec(t, now1),
        now2 - now1 <= remaining_spec(t, now1) ==> remaining_spec(t, now2) == remaining_spec(t, now1) - (now2 - now1),
{
}

impl TimeControl {
    /// A clock that has not started yet and allows `limit` milliseconds.
    pub fn new(limit: u64) -> (r: Self)
        ensures
            r.limit == limit,
            r.started_at is None,
    {
        TimeControl { limit, started_at: None }
    }

    /// Starts the clock at `now`; a clock that runs already keeps its start.
    pub fn start(&mut self, now: u64)
        ensures
            final(self).limit == old(self).limit,
            final(self).started_at == match old(self).started_at {
                None => Some(now),
                Some(s) => Some(s),
            },
    {
        if self.started_at.is_none() {
            self.started_at = Some(now);
        }
    }

    /// The time that has passed since the start (none before it).
    pub fn elapsed(&self, now: u64) -> (r: u64)
        ensures
            r == elapsed_since(self.started_at, now),
    {
        match self.started_at {
            None => 0,
            Some(start) => now.saturating_sub(start),
        }
    }

    /// Whether the clock has run out. This clock never runs out: the
    /// limit is shown to the players but not enforced.
    pub fn is_expired(&self, now: u64) -> (r: bool)
        ensures
            !r,
    {
        false
    }

    /// Whether the clock has been started.
    pub fn has_started(&self) -> (r: bool)
        ensures
            r == self.started_at is Some,
    {
        self.started_at.is_some()
    }

    /// The time left of the limit, as of `now` (never below zero).
    pub fn remaining(&self, now: u64) -> (r: u64)
        ensures
            r == remaining_spec(*self, now),
    {
        let elapsed: u64 = self.elapsed(now);
        self.limit.saturating_sub(elapsed)
    }
}

} // verus!
