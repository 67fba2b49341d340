//! The error taxonomy of the queue.  All of these are ordinary result values:
//! the transient conditions (`Full`, `Empty`) invite a retry, `Lapped` is a
//! data-loss report for a reader that fell behind, and `Disconnected` is
//! terminal.

use vstd::prelude::*;

verus! {

/// Outcome of a failed non-blocking send.  The rejected value is handed back
/// to the caller in either case.
#[derive(Debug)]
pub enum TrySendError<T> {
    /// The target slot's previous occupant has not been consumed by every
    /// live consumer group yet; transient, a retry may succeed.
    Full(T),
    /// No live consumer group remains, so nothing would ever consume the
    /// value; terminal.
    Disconnected(T),
}

impl<T> TrySendError<T> {
    /// The value the queue refused.
    pub open spec fn spec_value(self) -> T {
        match self {
            TrySendError::Full(v) => v,
            TrySendError::Disconnected(v) => v,
        }
    }

    /// Takes the refused value back out of the error.
    pub fn into_inner(self) -> (v: T)
        ensures
            v == self.spec_value(),
    {
        match self {
            TrySendError::Full(v) => v,
            TrySendError::Disconnected(v) => v,
        }
    }
}

/// Outcome of a failed non-blocking receive.
#[derive(Clone, Copy, Debug, PartialEq, Eq, Structural)]
pub enum TryRecvError {
    /// No element is published past this reader's cursor; transient.
    Empty,
    /// The reader's expected slot was already reused for a later epoch before
    /// the reader caught up.  The slot-reuse guard proves this can never be
    /// observed by a live group; the report exists so that a caller of the
    /// engine sees lag distinctly from emptiness, never as a wrong value.
    Lapped,
    /// Every producer is gone and the stream is fully drained; terminal.
    Disconnected,
}

/// Outcome of a failed blocking receive.
#[derive(Clone, Copy, Debug, PartialEq, Eq, Structural)]
pub enum RecvError {
    /// The wait strategy's budget ran out while the queue stayed empty; the
    /// same transient meaning as the non-blocking outcome.
    Empty,
    /// Every producer is gone and the stream is fully drained; terminal.
    Disconnected,
}

} // verus!
