//! A bounded, in-process queue with two delivery disciplines over one shared
//! ring buffer: broadcast (every subscribed stream sees every element) and
//! work-sharing (each element is delivered to exactly one member of a group).
//!
//! The engine is a fixed-capacity slot store indexed by a monotonic logical
//! position.  Each slot carries a position tag, so that occupancy can be
//! validated across wraparounds, and a pending-read counter that guards reuse:
//! a producer may overwrite a slot only once every live consumer group has
//! finished with the previous occupant.  The whole protocol is verified: the
//! contracts pin down exactly when a send is accepted, which element a
//! receive returns, and that no reader is ever handed a stale or torn value.
#![verifier::loop_isolation(false)]

pub mod position;
pub mod errors;
pub mod wait;
pub mod model;
pub mod queue;
pub mod mpmc;
pub mod broadcast;
pub mod laws;
