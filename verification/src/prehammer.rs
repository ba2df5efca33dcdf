use vstd::prelude::*;

verus! {

// ---------------------------------------------------------------------------
// Prehammer progress
//
// The prehammer repeats init-hammer-check rounds on one victim until the
// flips look stable: it stops early after enough consecutive successful
// rounds, and gives up after a fixed number of rounds.  The rounds
// themselves run outside the crate; the stopping rule lives here.
// ---------------------------------------------------------------------------

/// Consecutive successful rounds that end a victim's test early.
pub const CONSECUTIVE_SUCCESSES: u8 = 5;

/// Rounds after which a victim's test gives up.
pub const GIVE_UP_THESHOLD: u8 = 20;

/// Progress of one victim's test: rounds run so far, and the length of the
/// current success streak (starting at one, as the round counter would make
/// the first success the streak's second member otherwise).
pub struct HammerProgress {
    pub consecutive_successes: u8,
    pub iteration: u8,
}

impl HammerProgress {
    /// Another round is due: the streak has not reached its goal and the
    /// round budget is not exhausted.
    pub open spec fn running(self) -> bool {
        self.consecutive_successes <= CONSECUTIVE_SUCCESSES && self.iteration
            < GIVE_UP_THESHOLD
    }

    /// Counters stay inside their bounds.
    pub open spec fn wf(self) -> bool {
        self.consecutive_successes <= CONSECUTIVE_SUCCESSES + 1 && self.iteration
            <= GIVE_UP_THESHOLD
    }

    /// Fresh progress before the first round.
    pub fn new() -> (p: HammerProgress)
        ensures
            p.consecutive_successes == 1,
            p.iteration == 0,
            p.wf(),
    {
        HammerProgress { consecutive_successes: 1, iteration: 0 }
    }

    /// Whether another round should run.
    pub fn should_continue(&self) -> (b: bool)
        ensures
            b == self.running(),
    {
        self.consecutive_successes <= CONSECUTIVE_SUCCESSES && self.iteration < GIVE_UP_THESHOLD
    }

    /// Records one round: a success extends the streak, a failure restarts
    /// it; either way a round is used up.
    pub fn record(&mut self, success: bool)
        requires
            old(self).wf(),
            old(self).running(),
        ensures
            final(self).wf(),
            final(self).iteration == old(self).iteration + 1,
            final(self).consecutive_successes == (if success {
                (old(self).consecutive_successes + 1) as u8
            } else {
                1u8
            }),
    {
        if success {
            self.consecutive_successes = self.consecutive_successes + 1;
        } else {
            self.consecutive_successes = 1;
        }
        self.iteration = self.iteration + 1;
    }

    /// Whether the test ended by exhausting its round budget instead of
    /// reaching a stable streak.
    pub fn gave_up(&self) -> (b: bool)
        ensures
            b == (self.iteration >= GIVE_UP_THESHOLD),
    {
        self.iteration >= GIVE_UP_THESHOLD
    }
}

} // verus!
