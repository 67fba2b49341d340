//! The pluggable wait strategy, chosen at construction time.
//!
//! When a receive finds nothing published, the blocking entry points consult
//! the strategy between re-checks.  Every verified loop in this library
//! terminates, so each strategy carries an explicit retry budget; once the
//! budget is spent, the blocking call gives up and reports the same `Empty`
//! outcome as the non-blocking path, exactly the bounded "try then give up"
//! mode of the design.  A strategy can never fail: it only decides how many
//! times control loops before returning to the caller.

use vstd::prelude::*;

verus! {

/// How a caller waits when the queue has nothing for it.
#[derive(Clone, Copy, Debug, PartialEq, Eq, Structural)]
pub enum WaitStrategy {
    /// Busy-spin, re-checking the queue up to `retries` times.
    Spin { retries: usize },
    /// Yield between re-checks, up to `retries` times.
    Yield { retries: usize },
    /// Park until notified, with a bounded number of wakeups before giving
    /// up.  In this engine a wakeup is a re-check of the queue.
    Block { retries: usize },
}

impl WaitStrategy {
    /// How many re-checks a blocking call performs before it gives up.
    pub open spec fn spec_budget(self) -> nat {
        match self {
            WaitStrategy::Spin { retries } => retries as nat,
            WaitStrategy::Yield { retries } => retries as nat,
            WaitStrategy::Block { retries } => retries as nat,
        }
    }

    /// Runtime view of the retry budget.
    pub fn budget(&self) -> (r: usize)
        ensures
            r == self.spec_budget(),
    {
        match *self {
            WaitStrategy::Spin { retries } => retries,
            WaitStrategy::Yield { retries } => retries,
            WaitStrategy::Block { retries } => retries,
        }
    }

    /// The strategy a queue gets when none is chosen: a short busy-spin.
    pub fn standard() -> (w: WaitStrategy)
        ensures
            w == (WaitStrategy::Spin { retries: 16usize }),
    {
        WaitStrategy::Spin { retries: 16 }
    }
}

} // verus!
