use vstd::prelude::*;

verus! {

/// How many times a batch insert is tried.
pub const MAX_RETRIES: u32 = 10;

/// The wait after the first failed attempt, in milliseconds.
pub const INITIAL_DELAY_MS: u64 = 100;

/// What one attempt to insert a batch came to.
pub enum InsertOutcome {
    Inserted,
    /// The sink already holds a row with the same unique key: the batch was
    /// committed before.
    UniqueViolation,
    Failed,
}

/// What to do after an attempt.
pub enum RetryAction {
    /// The batch is committed.
    Done,
    /// Wait this long, then try again.
    Retry { delay_ms: u64 },
    /// Give up: the error is fatal.
    Fail,
}

/// Where a batch insert stands: the attempt about to be made and the wait
/// that follows it if it fails.
pub struct RetryState {
    pub attempt: u32,
    pub delay_ms: u64,
}

/// The wait after the failed attempt `i`: it doubles each time.
pub open spec fn backoff(i: nat) -> nat
    decreases i,
{
    if i == 0 {
        INITIAL_DELAY_MS as nat
    } else {
        2 * backoff((i - 1) as nat)
    }
}

proof fn lemma_backoff_bound(i: nat)
    requires
        i < MAX_RETRIES,
    ensures
        backoff(i) <= 51200,
    decreases i,
{
    if i > 0 {
        lemma_backoff_bound((i - 1) as nat);
        reveal_with_fuel(backoff, 10);
    }
}

impl RetryState {
    pub open spec fn wf(&self) -> bool {
        &&& self.attempt < MAX_RETRIES
        &&& self.delay_ms == backoff(self.attempt as nat)
    }

    pub fn new() -> (r: RetryState)
        ensures
            r.wf(),
            r.attempt == 0,
    {
        RetryState { attempt: 0, delay_ms: INITIAL_DELAY_MS }
    }

    /// Decides what follows an attempt. A unique-key violation counts as
    /// success; a failure is retried after a doubling wait until the last
    /// attempt has failed.
    pub fn step(&mut self, outcome: InsertOutcome) -> (r: RetryAction)
        requires
            old(self).wf(),
        ensures
            match outcome {
                InsertOutcome::Inserted => r == RetryAction::Done,
                InsertOutcome::UniqueViolation => r == RetryAction::Done,
                InsertOutcome::Failed => if old(self).attempt + 1 < MAX_RETRIES {
                    &&& r == RetryAction::Retry { delay_ms: backoff(old(self).attempt as nat) as u64 }
                    &&& final(self).attempt == old(self).attempt + 1
                    &&& final(self).wf()
                } else {
                    r == RetryAction::Fail
                },
            },
    {
        match outcome {
            InsertOutcome::Inserted => RetryAction::Done,
            InsertOutcome::UniqueViolation => RetryAction::Done,
            InsertOutcome::Failed => {
                if self.attempt + 1 < MAX_RETRIES {
                    let delay_ms = self.delay_ms;
                    proof {
                        lemma_backoff_bound(self.attempt as nat);
                    }
                    self.attempt = self.attempt + 1;
                    self.delay_ms = delay_ms * 2;
                    RetryAction::Retry { delay_ms }
                } else {
                    RetryAction::Fail
                }
            },
        }
    }
}

} // verus!
