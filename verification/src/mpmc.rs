//! The work-sharing (MPMC) face of the queue.
//!
//! One group of consumers shares the claim cursor, so each published element
//! is delivered to exactly one of them.  Handles are tokens over the shared
//! engine: every call takes the engine explicitly, since verified code holds
//! shared state in one owner rather than behind reference-counted interior
//! mutability.  Cloning a handle registers it with the engine's lifecycle
//! registry, and unsubscribing removes it, so producers fail fast once the
//! last consumer is gone and consumers see the end of a drained stream once
//! the last producer is gone.

use vstd::prelude::*;

use crate::errors::{TrySendError, TryRecvError, RecvError};
use crate::model::{GroupModel, is_live};
use crate::queue::MultiQueue;
use crate::wait::WaitStrategy;

verus! {

/// The sending half: supports non-blocking writes and is the conduit for
/// adding new writers.
pub struct MPMCSender {
    token: bool,
}

/// The receiving half of the standard work-sharing view of the queue.  There
/// is only ever one stream, so the element type needs no copying.
pub struct MPMCReceiver {
    group: usize,
}

/// The receiving half for when it is statically known that there is only one
/// receiver: the only handle entitled to in-place views of an element.
pub struct MPMCUniReceiver {
    group: usize,
}

/// An iterator-style drain of a receiver: yields elements until the stream
/// disconnects or the wait budget runs out.
pub struct MPMCIter {
    recv: MPMCReceiver,
}

impl MPMCReceiver {
    /// The group this handle belongs to.
    pub closed spec fn group_id(self) -> int {
        self.group as int
    }
}

impl MPMCUniReceiver {
    /// The group this handle belongs to.
    pub closed spec fn group_id(self) -> int {
        self.group as int
    }
}

impl MPMCIter {
    /// The group the drained receiver belongs to.
    pub closed spec fn group_id(self) -> int {
        self.recv.group_id()
    }
}

/// Creates a work-sharing queue with the standard wait strategy.  The engine
/// is returned beside the two handles; every handle call takes it explicitly.
pub fn mpmc_queue<T>(capacity: usize) -> (r: (MultiQueue<T>, MPMCSender, MPMCReceiver))
    requires
        crate::position::is_pow2(capacity as nat),
    ensures
        r.0.inv(),
        r.0.is_single_stream(),
        r.0@.capacity == capacity,
        r.0@.stream =~= Seq::<T>::empty(),
        r.0@.producers == 1,
        r.0@.groups =~= seq![GroupModel::<T> { members: 1, cursor: 0, start: 0, taken: Seq::empty() }],
        r.2.group_id() == 0,
{
    mpmc_queue_with(capacity, WaitStrategy::standard())
}

/// Creates a work-sharing queue with the given wait strategy.
pub fn mpmc_queue_with<T>(capacity: usize, w: WaitStrategy) -> (r: (
    MultiQueue<T>,
    MPMCSender,
    MPMCReceiver,
))
    requires
        crate::position::is_pow2(capacity as nat),
    ensures
        r.0.inv(),
        r.0.is_single_stream(),
        r.0.strategy() == w,
        r.0@.capacity == capacity,
        r.0@.stream =~= Seq::<T>::empty(),
        r.0@.producers == 1,
        r.0@.groups =~= seq![GroupModel::<T> { members: 1, cursor: 0, start: 0, taken: Seq::empty() }],
        r.2.group_id() == 0,
{
    let q = MultiQueue::new_single_stream(capacity, w);
    (q, MPMCSender { token: true }, MPMCReceiver { group: 0 })
}

impl MPMCSender {
    /// Tries to send a value into the queue.
    /// If no slot is free, returns `Err(TrySendError::Full(val))`; if there
    /// are no readers left, returns `Err(TrySendError::Disconnected(val))`.
    pub fn try_send<T>(&self, q: &mut MultiQueue<T>, val: T) -> (r: Result<(), TrySendError<T>>)
        requires
            old(q).inv(),
            old(q)@.producers >= 1,
            old(q)@.stream.len() < usize::MAX,
        ensures
            final(q).inv(),
            final(q).is_single_stream() == old(q).is_single_stream(),
            final(q).strategy() == old(q).strategy(),
            final(q)@.capacity == old(q)@.capacity,
            final(q)@.producers == old(q)@.producers,
            final(q)@.groups == old(q)@.groups,
            match r {
                Ok(()) => {
                    &&& crate::model::has_live(old(q)@)
                    &&& crate::model::can_accept(old(q)@)
                    &&& final(q)@.stream == old(q)@.stream.push(val)
                },
                Err(TrySendError::Disconnected(v)) => {
                    &&& !crate::model::has_live(old(q)@)
                    &&& v == val
                    &&& final(q)@ == old(q)@
                },
                Err(TrySendError::Full(v)) => {
                    &&& crate::model::has_live(old(q)@)
                    &&& !crate::model::can_accept(old(q)@)
                    &&& v == val
                    &&& final(q)@ == old(q)@
                },
            },
    {
        q.try_send(val)
    }

    /// Registers another writer sharing this one's queue.
    pub fn clone<T>(&self, q: &mut MultiQueue<T>) -> (s: MPMCSender)
        requires
            old(q).inv(),
            old(q)@.producers >= 1,
            old(q)@.producers < usize::MAX,
        ensures
            final(q).inv(),
            final(q).is_single_stream() == old(q).is_single_stream(),
            final(q).strategy() == old(q).strategy(),
            final(q)@ == (crate::model::QueueModel { producers: old(q)@.producers + 1, ..old(q)@ }),
    {
        q.add_sender();
        MPMCSender { token: true }
    }

    /// Removes this writer from the queue.  Once the last writer is gone the
    /// stream is closed: readers that drain it see `Disconnected`.
    pub fn unsubscribe<T>(self, q: &mut MultiQueue<T>)
        requires
            old(q).inv(),
            old(q)@.producers >= 1,
        ensures
            final(q).inv(),
            final(q).is_single_stream() == old(q).is_single_stream(),
            final(q).strategy() == old(q).strategy(),
            final(q)@ == (crate::model::QueueModel {
                producers: (old(q)@.producers - 1) as nat,
                ..old(q)@
            }),
    {
        q.remove_sender();
    }
}

impl MPMCReceiver {
    /// Tries to receive a value from the queue without blocking: on success
    /// this handle is the element's only recipient.
    pub fn try_recv<T>(&self, q: &mut MultiQueue<T>) -> (r: Result<T, TryRecvError>)
        requires
            old(q).inv(),
            old(q).is_single_stream(),
            0 <= self.group_id() < old(q)@.groups.len(),
            is_live(old(q)@.groups[self.group_id()]),
        ensures
            final(q).inv(),
            final(q).is_single_stream(),
            final(q).strategy() == old(q).strategy(),
            final(q)@.capacity == old(q)@.capacity,
            final(q)@.producers == old(q)@.producers,
            final(q)@.stream == old(q)@.stream,
            final(q)@.groups.len() == old(q)@.groups.len(),
            match r {
                Ok(v) => {
                    let g = old(q)@.groups[self.group_id()];
                    &&& g.cursor < old(q)@.stream.len()
                    &&& v == old(q)@.stream[g.cursor as int]
                    &&& final(q)@.groups == old(q)@.groups.update(
                        self.group_id(),
                        GroupModel { cursor: (g.cursor + 1) as nat, taken: g.taken.push(v), ..g },
                    )
                },
                Err(TryRecvError::Empty) => {
                    &&& old(q)@.groups[self.group_id()].cursor == old(q)@.stream.len()
                    &&& old(q)@.producers > 0
                    &&& final(q)@ == old(q)@
                },
                Err(TryRecvError::Disconnected) => {
                    &&& old(q)@.groups[self.group_id()].cursor == old(q)@.stream.len()
                    &&& old(q)@.producers == 0
                    &&& final(q)@ == old(q)@
                },
                Err(TryRecvError::Lapped) => false,
            },
    {
        q.try_recv_take(self.group)
    }

    /// Receives a value, waiting under the queue's strategy while the queue
    /// is empty; gives up with `Empty` once the retry budget is spent.
    pub fn recv<T>(&self, q: &mut MultiQueue<T>) -> (r: Result<T, RecvError>)
        requires
            old(q).inv(),
            old(q).is_single_stream(),
            0 <= self.group_id() < old(q)@.groups.len(),
            is_live(old(q)@.groups[self.group_id()]),
        ensures
            final(q).inv(),
            final(q).is_single_stream(),
            final(q).strategy() == old(q).strategy(),
            final(q)@.capacity == old(q)@.capacity,
            final(q)@.producers == old(q)@.producers,
            final(q)@.stream == old(q)@.stream,
            final(q)@.groups.len() == old(q)@.groups.len(),
            match r {
                Ok(v) => {
                    let g = old(q)@.groups[self.group_id()];
                    &&& g.cursor < old(q)@.stream.len()
                    &&& v == old(q)@.stream[g.cursor as int]
                    &&& final(q)@.groups == old(q)@.groups.update(
                        self.group_id(),
                        GroupModel { cursor: (g.cursor + 1) as nat, taken: g.taken.push(v), ..g },
                    )
                },
                Err(RecvError::Empty) => {
                    &&& old(q)@.groups[self.group_id()].cursor == old(q)@.stream.len()
                    &&& old(q)@.producers > 0
                    &&& final(q)@ == old(q)@
                },
                Err(RecvError::Disconnected) => {
                    &&& old(q)@.groups[self.group_id()].cursor == old(q)@.stream.len()
                    &&& old(q)@.producers == 0
                    &&& final(q)@ == old(q)@
                },
            },
    {
        q.recv_take(self.group)
    }

    /// Adds another member to this handle's group: the clone shares the claim
    /// cursor, so each element still goes to exactly one member.
    pub fn clone<T>(&self, q: &mut MultiQueue<T>) -> (r2: MPMCReceiver)
        requires
            old(q).inv(),
            0 <= self.group_id() < old(q)@.groups.len(),
            is_live(old(q)@.groups[self.group_id()]),
            old(q)@.groups[self.group_id()].members < usize::MAX,
        ensures
            final(q).inv(),
            final(q).is_single_stream() == old(q).is_single_stream(),
            final(q).strategy() == old(q).strategy(),
            final(q)@.capacity == old(q)@.capacity,
            final(q)@.producers == old(q)@.producers,
            final(q)@.stream == old(q)@.stream,
            final(q)@.groups == old(q)@.groups.update(
                self.group_id(),
                GroupModel {
                    members: old(q)@.groups[self.group_id()].members + 1,
                    ..old(q)@.groups[self.group_id()]
                },
            ),
            r2.group_id() == self.group_id(),
    {
        q.add_member(self.group);
        MPMCReceiver { group: self.group }
    }

    /// Removes this reader from the queue's subscription registry.  Returns
    /// true when it was the group's last member: the group retires, its owed
    /// reads are released, and producers see `Disconnected` from then on.
    pub fn unsubscribe<T>(self, q: &mut MultiQueue<T>) -> (last: bool)
        requires
            old(q).inv(),
            0 <= self.group_id() < old(q)@.groups.len(),
            is_live(old(q)@.groups[self.group_id()]),
        ensures
            final(q).inv(),
            final(q).is_single_stream() == old(q).is_single_stream(),
            final(q).strategy() == old(q).strategy(),
            final(q)@.capacity == old(q)@.capacity,
            final(q)@.producers == old(q)@.producers,
            final(q)@.stream == old(q)@.stream,
            final(q)@.groups == old(q)@.groups.update(
                self.group_id(),
                GroupModel {
                    members: (old(q)@.groups[self.group_id()].members - 1) as nat,
                    ..old(q)@.groups[self.group_id()]
                },
            ),
            last == (old(q)@.groups[self.group_id()].members == 1),
    {
        q.remove_member(self.group)
    }

    /// Converts this receiver into the single-receiver form, which allows
    /// in-place views.  Succeeds exactly when this handle is its group's only
    /// member; otherwise the receiver is handed back unchanged.
    pub fn into_single<T>(self, q: &MultiQueue<T>) -> (r: Result<MPMCUniReceiver, MPMCReceiver>)
        requires
            0 <= self.group_id() < q@.groups.len(),
        ensures
            match r {
                Ok(u) => {
                    &&& q@.groups[self.group_id()].members == 1
                    &&& u.group_id() == self.group_id()
                },
                Err(m) => {
                    &&& q@.groups[self.group_id()].members != 1
                    &&& m.group_id() == self.group_id()
                },
            },
    {
        if q.member_count(self.group) == 1 {
            Ok(MPMCUniReceiver { group: self.group })
        } else {
            Err(self)
        }
    }

    /// Turns the receiver into an iterator-style drain.
    pub fn into_iter(self) -> (it: MPMCIter)
        ensures
            it.group_id() == self.group_id(),
    {
        MPMCIter { recv: self }
    }
}

impl MPMCUniReceiver {
    /// Identical to the multi-receiver `try_recv`.
    pub fn try_recv<T>(&self, q: &mut MultiQueue<T>) -> (r: Result<T, TryRecvError>)
        requires
            old(q).inv(),
            old(q).is_single_stream(),
            0 <= self.group_id() < old(q)@.groups.len(),
            is_live(old(q)@.groups[self.group_id()]),
        ensures
            final(q).inv(),
            final(q).is_single_stream(),
            final(q).strategy() == old(q).strategy(),
            final(q)@.capacity == old(q)@.capacity,
            final(q)@.producers == old(q)@.producers,
            final(q)@.stream == old(q)@.stream,
            final(q)@.groups.len() == old(q)@.groups.len(),
            match r {
                Ok(v) => {
                    let g = old(q)@.groups[self.group_id()];
                    &&& g.cursor < old(q)@.stream.len()
                    &&& v == old(q)@.stream[g.cursor as int]
                    &&& final(q)@.groups == old(q)@.groups.update(
                        self.group_id(),
                        GroupModel { cursor: (g.cursor + 1) as nat, taken: g.taken.push(v), ..g },
                    )
                },
                Err(TryRecvError::Empty) => {
                    &&& old(q)@.groups[self.group_id()].cursor == old(q)@.stream.len()
                    &&& old(q)@.producers > 0
                    &&& final(q)@ == old(q)@
                },
                Err(TryRecvError::Disconnected) => {
                    &&& old(q)@.groups[self.group_id()].cursor == old(q)@.stream.len()
                    &&& old(q)@.producers == 0
                    &&& final(q)@ == old(q)@
                },
                Err(TryRecvError::Lapped) => false,
            },
    {
        q.try_recv_take(self.group)
    }

    /// Identical to the multi-receiver `recv`.
    pub fn recv<T>(&self, q: &mut MultiQueue<T>) -> (r: Result<T, RecvError>)
        requires
            old(q).inv(),
            old(q).is_single_stream(),
            0 <= self.group_id() < old(q)@.groups.len(),
            is_live(old(q)@.groups[self.group_id()]),
        ensures
            final(q).inv(),
            final(q).is_single_stream(),
            final(q).strategy() == old(q).strategy(),
            final(q)@.capacity == old(q)@.capacity,
            final(q)@.producers == old(q)@.producers,
            final(q)@.stream == old(q)@.stream,
            final(q)@.groups.len() == old(q)@.groups.len(),
            match r {
                Ok(v) => {
                    let g = old(q)@.groups[self.group_id()];
                    &&& g.cursor < old(q)@.stream.len()
                    &&& v == old(q)@.stream[g.cursor as int]
                    &&& final(q)@.groups == old(q)@.groups.update(
                        self.group_id(),
                        GroupModel { cursor: (g.cursor + 1) as nat, taken: g.taken.push(v), ..g },
                    )
                },
                Err(RecvError::Empty) => {
                    &&& old(q)@.groups[self.group_id()].cursor == old(q)@.stream.len()
                    &&& old(q)@.producers > 0
                    &&& final(q)@ == old(q)@
                },
                Err(RecvError::Disconnected) => {
                    &&& old(q)@.groups[self.group_id()].cursor == old(q)@.stream.len()
                    &&& old(q)@.producers == 0
                    &&& final(q)@ == old(q)@
                },
            },
    {
        q.recv_take(self.group)
    }

    /// Applies the closure to the next element in place instead of moving it
    /// out; the element is consumed either way.  On failure the closure is
    /// handed back beside the outcome.
    pub fn try_recv_view<T, R, F: FnOnce(&T) -> R>(&self, q: &mut MultiQueue<T>, op: F) -> (r:
        Result<R, (F, TryRecvError)>)
        requires
            old(q).inv(),
            old(q).is_single_stream(),
            0 <= self.group_id() < old(q)@.groups.len(),
            is_live(old(q)@.groups[self.group_id()]),
            old(q)@.groups[self.group_id()].cursor < old(q)@.stream.len() ==> call_requires(
                op,
                (&old(q)@.stream[old(q)@.groups[self.group_id()].cursor as int],),
            ),
        ensures
            final(q).inv(),
            final(q).is_single_stream(),
            final(q).strategy() == old(q).strategy(),
            final(q)@.capacity == old(q)@.capacity,
            final(q)@.producers == old(q)@.producers,
            final(q)@.stream == old(q)@.stream,
            final(q)@.groups.len() == old(q)@.groups.len(),
            match r {
                Ok(res) => {
                    let g = old(q)@.groups[self.group_id()];
                    &&& g.cursor < old(q)@.stream.len()
                    &&& call_ensures(op, (&old(q)@.stream[g.cursor as int],), res)
                },
                Err((op2, TryRecvError::Empty)) => {
                    &&& old(q)@.groups[self.group_id()].cursor == old(q)@.stream.len()
                    &&& old(q)@.producers > 0
                    &&& op2 == op
                    &&& final(q)@ == old(q)@
                },
                Err((op2, TryRecvError::Disconnected)) => {
                    &&& old(q)@.groups[self.group_id()].cursor == old(q)@.stream.len()
                    &&& old(q)@.producers == 0
                    &&& op2 == op
                    &&& final(q)@ == old(q)@
                },
                Err((_, TryRecvError::Lapped)) => false,
            },
    {
        q.try_recv_view(self.group, op)
    }

    /// Blocking counterpart of `try_recv_view`, under the queue's wait
    /// strategy.
    pub fn recv_view<T, R, F: FnOnce(&T) -> R>(&self, q: &mut MultiQueue<T>, op: F) -> (r: Result<
        R,
        (F, RecvError),
    >)
        requires
            old(q).inv(),
            old(q).is_single_stream(),
            0 <= self.group_id() < old(q)@.groups.len(),
            is_live(old(q)@.groups[self.group_id()]),
            old(q)@.groups[self.group_id()].cursor < old(q)@.stream.len() ==> call_requires(
                op,
                (&old(q)@.stream[old(q)@.groups[self.group_id()].cursor as int],),
            ),
        ensures
            final(q).inv(),
            final(q).is_single_stream(),
            final(q).strategy() == old(q).strategy(),
            final(q)@.capacity == old(q)@.capacity,
            final(q)@.producers == old(q)@.producers,
            final(q)@.stream == old(q)@.stream,
            final(q)@.groups.len() == old(q)@.groups.len(),
            match r {
                Ok(res) => {
                    let g = old(q)@.groups[self.group_id()];
                    &&& g.cursor < old(q)@.stream.len()
                    &&& call_ensures(op, (&old(q)@.stream[g.cursor as int],), res)
                },
                Err((op2, RecvError::Empty)) => {
                    &&& old(q)@.groups[self.group_id()].cursor == old(q)@.stream.len()
                    &&& old(q)@.producers > 0
                    &&& op2 == op
                    &&& final(q)@ == old(q)@
                },
                Err((op2, RecvError::Disconnected)) => {
                    &&& old(q)@.groups[self.group_id()].cursor == old(q)@.stream.len()
                    &&& old(q)@.producers == 0
                    &&& op2 == op
                    &&& final(q)@ == old(q)@
                },
            },
    {
        q.recv_view(self.group, op)
    }

    /// Removes this reader from the queue's subscription registry; as the
    /// single member, its departure always retires the group.
    pub fn unsubscribe<T>(self, q: &mut MultiQueue<T>) -> (last: bool)
        requires
            old(q).inv(),
            0 <= self.group_id() < old(q)@.groups.len(),
            is_live(old(q)@.groups[self.group_id()]),
        ensures
            final(q).inv(),
            final(q).is_single_stream() == old(q).is_single_stream(),
            final(q).strategy() == old(q).strategy(),
            final(q)@.capacity == old(q)@.capacity,
            final(q)@.producers == old(q)@.producers,
            final(q)@.stream == old(q)@.stream,
            final(q)@.groups == old(q)@.groups.update(
                self.group_id(),
                GroupModel {
                    members: (old(q)@.groups[self.group_id()].members - 1) as nat,
                    ..old(q)@.groups[self.group_id()]
                },
            ),
            last == (old(q)@.groups[self.group_id()].members == 1),
    {
        q.remove_member(self.group)
    }
}

impl MPMCIter {
    /// Yields the next element, or `None` once the stream has disconnected or
    /// the wait budget ran out.
    pub fn next<T>(&mut self, q: &mut MultiQueue<T>) -> (r: Option<T>)
        requires
            old(q).inv(),
            old(q).is_single_stream(),
            0 <= old(self).group_id() < old(q)@.groups.len(),
            is_live(old(q)@.groups[old(self).group_id()]),
        ensures
            final(self).group_id() == old(self).group_id(),
            final(q).inv(),
            final(q).is_single_stream(),
            final(q).strategy() == old(q).strategy(),
            final(q)@.capacity == old(q)@.capacity,
            final(q)@.producers == old(q)@.producers,
            final(q)@.stream == old(q)@.stream,
            final(q)@.groups.len() == old(q)@.groups.len(),
            match r {
                Some(v) => {
                    let g = old(q)@.groups[old(self).group_id()];
                    &&& g.cursor < old(q)@.stream.len()
                    &&& v == old(q)@.stream[g.cursor as int]
                    &&& final(q)@.groups == old(q)@.groups.update(
                        old(self).group_id(),
                        GroupModel { cursor: (g.cursor + 1) as nat, taken: g.taken.push(v), ..g },
                    )
                },
                None => {
                    &&& old(q)@.groups[old(self).group_id()].cursor == old(q)@.stream.len()
                    &&& final(q)@ == old(q)@
                },
            },
    {
        match self.recv.recv(q) {
            Ok(val) => Some(val),
            Err(_) => None,
        }
    }
}

} // verus!
