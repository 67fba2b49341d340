//! The broadcast face of the queue.
//!
//! Every subscribed group receives every element.  Cloning a receiver
//! subscribes a fresh group whose independent cursor starts at the clone
//! point, so the clone sees everything published from then on while the
//! original's own pace is unaffected.  Because several groups read the same
//! slot, a broadcast read hands out a copy and leaves the element in place
//! for the groups still owed it.

use vstd::prelude::*;

use crate::errors::{TrySendError, TryRecvError, RecvError};
use crate::model::{GroupModel, QueueModel, is_live, has_live, can_accept};
use crate::queue::MultiQueue;
use crate::wait::WaitStrategy;

verus! {

/// The sending half of a broadcast queue.
pub struct BroadcastSender {
    token: bool,
}

/// One broadcast reader: its group id names its independent cursor.
pub struct BroadcastReceiver {
    group: usize,
}

impl BroadcastReceiver {
    /// The group this handle reads for.
    pub closed spec fn group_id(self) -> int {
        self.group as int
    }
}

/// Creates a broadcast queue with the standard wait strategy.
pub fn broadcast_queue<T>(capacity: usize) -> (r: (
    MultiQueue<T>,
    BroadcastSender,
    BroadcastReceiver,
))
    requires
        crate::position::is_pow2(capacity as nat),
    ensures
        r.0.inv(),
        !r.0.is_single_stream(),
        r.0@.capacity == capacity,
        r.0@.stream =~= Seq::<T>::empty(),
        r.0@.producers == 1,
        r.0@.groups =~= seq![GroupModel::<T> { members: 1, cursor: 0, start: 0, taken: Seq::empty() }],
        r.2.group_id() == 0,
{
    broadcast_queue_with(capacity, WaitStrategy::standard())
}

/// Creates a broadcast queue with the given wait strategy.
pub fn broadcast_queue_with<T>(capacity: usize, w: WaitStrategy) -> (r: (
    MultiQueue<T>,
    BroadcastSender,
    BroadcastReceiver,
))
    requires
        crate::position::is_pow2(capacity as nat),
    ensures
        r.0.inv(),
        !r.0.is_single_stream(),
        r.0.strategy() == w,
        r.0@.capacity == capacity,
        r.0@.stream =~= Seq::<T>::empty(),
        r.0@.producers == 1,
        r.0@.groups =~= seq![GroupModel::<T> { members: 1, cursor: 0, start: 0, taken: Seq::empty() }],
        r.2.group_id() == 0,
{
    let q = MultiQueue::new_broadcast(capacity, w);
    (q, BroadcastSender { token: true }, BroadcastReceiver { group: 0 })
}

impl BroadcastSender {
    /// Tries to send a value into the queue; every live group will see it.
    /// If some live group still owes a read of the target slot, returns
    /// `Err(TrySendError::Full(val))`; if there are no readers left, returns
    /// `Err(TrySendError::Disconnected(val))`.
    pub fn try_send<T>(&self, q: &mut MultiQueue<T>, val: T) -> (r: Result<(), TrySendError<T>>)
        requires
            old(q).inv(),
            old(q)@.producers >= 1,
            old(q)@.stream.len() < usize::MAX,
        ensures
            final(q).inv(),
            final(q).is_single_stream() == old(q).is_single_stream(),
            final(q).strategy() == old(q).strategy(),
            final(q)@.capacity == old(q)@.capacity,
            final(q)@.producers == old(q)@.producers,
            final(q)@.groups == old(q)@.groups,
            match r {
                Ok(()) => {
                    &&& has_live(old(q)@)
                    &&& can_accept(old(q)@)
                    &&& final(q)@.stream == old(q)@.stream.push(val)
                },
                Err(TrySendError::Disconnected(v)) => {
                    &&& !has_live(old(q)@)
                    &&& v == val
                    &&& final(q)@ == old(q)@
                },
                Err(TrySendError::Full(v)) => {
                    &&& has_live(old(q)@)
                    &&& !can_accept(old(q)@)
                    &&& v == val
                    &&& final(q)@ == old(q)@
                },
            },
    {
        q.try_send(val)
    }

    /// Registers another writer sharing this one's queue.
    pub fn clone<T>(&self, q: &mut MultiQueue<T>) -> (s: BroadcastSender)
        requires
            old(q).inv(),
            old(q)@.producers >= 1,
            old(q)@.producers < usize::MAX,
        ensures
            final(q).inv(),
            final(q).is_single_stream() == old(q).is_single_stream(),
            final(q).strategy() == old(q).strategy(),
            final(q)@ == (QueueModel { producers: old(q)@.producers + 1, ..old(q)@ }),
    {
        q.add_sender();
        BroadcastSender { token: true }
    }

    /// Removes this writer from the queue; once the last one is gone, readers
    /// that drain the stream see `Disconnected`.
    pub fn unsubscribe<T>(self, q: &mut MultiQueue<T>)
        requires
            old(q).inv(),
            old(q)@.producers >= 1,
        ensures
            final(q).inv(),
            final(q).is_single_stream() == old(q).is_single_stream(),
            final(q).strategy() == old(q).strategy(),
            final(q)@ == (QueueModel { producers: (old(q)@.producers - 1) as nat, ..old(q)@ }),
    {
        q.remove_sender();
    }
}

impl BroadcastReceiver {
    /// Tries to receive this group's next element without blocking.  The
    /// element stays in place for the other groups still owed it.
    pub fn try_recv<T: Copy>(&self, q: &mut MultiQueue<T>) -> (r: Result<T, TryRecvError>)
        requires
            old(q).inv(),
            0 <= self.group_id() < old(q)@.groups.len(),
            is_live(old(q)@.groups[self.group_id()]),
        ensures
            final(q).inv(),
            final(q).is_single_stream() == old(q).is_single_stream(),
            final(q).strategy() == old(q).strategy(),
            final(q)@.capacity == old(q)@.capacity,
            final(q)@.producers == old(q)@.producers,
            final(q)@.stream == old(q)@.stream,
            final(q)@.groups.len() == old(q)@.groups.len(),
            match r {
                Ok(v) => {
                    let g = old(q)@.groups[self.group_id()];
                    &&& g.cursor < old(q)@.stream.len()
                    &&& v == old(q)@.stream[g.cursor as int]
                    &&& final(q)@.groups == old(q)@.groups.update(
                        self.group_id(),
                        GroupModel { cursor: (g.cursor + 1) as nat, taken: g.taken.push(v), ..g },
                    )
                },
                Err(TryRecvError::Empty) => {
                    &&& old(q)@.groups[self.group_id()].cursor == old(q)@.stream.len()
                    &&& old(q)@.producers > 0
                    &&& final(q)@ == old(q)@
                },
                Err(TryRecvError::Disconnected) => {
                    &&& old(q)@.groups[self.group_id()].cursor == old(q)@.stream.len()
                    &&& old(q)@.producers == 0
                    &&& final(q)@ == old(q)@
                },
                Err(TryRecvError::Lapped) => false,
            },
    {
        q.try_recv(self.group)
    }

    /// Receives this group's next element, waiting under the queue's strategy
    /// while the queue is empty; gives up with `Empty` once the retry budget
    /// is spent.
    pub fn recv<T: Copy>(&self, q: &mut MultiQueue<T>) -> (r: Result<T, RecvError>)
        requires
            old(q).inv(),
            0 <= self.group_id() < old(q)@.groups.len(),
            is_live(old(q)@.groups[self.group_id()]),
        ensures
            final(q).inv(),
            final(q).is_single_stream() == old(q).is_single_stream(),
            final(q).strategy() == old(q).strategy(),
            final(q)@.capacity == old(q)@.capacity,
            final(q)@.producers == old(q)@.producers,
            final(q)@.stream == old(q)@.stream,
            final(q)@.groups.len() == old(q)@.groups.len(),
            match r {
                Ok(v) => {
                    let g = old(q)@.groups[self.group_id()];
                    &&& g.cursor < old(q)@.stream.len()
                    &&& v == old(q)@.stream[g.cursor as int]
                    &&& final(q)@.groups == old(q)@.groups.update(
                        self.group_id(),
                        GroupModel { cursor: (g.cursor + 1) as nat, taken: g.taken.push(v), ..g },
                    )
                },
                Err(RecvError::Empty) => {
                    &&& old(q)@.groups[self.group_id()].cursor == old(q)@.stream.len()
                    &&& old(q)@.producers > 0
                    &&& final(q)@ == old(q)@
                },
                Err(RecvError::Disconnected) => {
                    &&& old(q)@.groups[self.group_id()].cursor == old(q)@.stream.len()
                    &&& old(q)@.producers == 0
                    &&& final(q)@ == old(q)@
                },
            },
    {
        q.recv(self.group)
    }

    /// Subscribes an independent reader starting at the clone point: the new
    /// group's cursor begins at the current published position, so it owes
    /// nothing already published and sees everything from here on.
    pub fn clone<T>(&self, q: &mut MultiQueue<T>) -> (r2: BroadcastReceiver)
        requires
            old(q).inv(),
            !old(q).is_single_stream(),
            old(q)@.groups.len() < usize::MAX,
        ensures
            final(q).inv(),
            !final(q).is_single_stream(),
            final(q).strategy() == old(q).strategy(),
            final(q)@.capacity == old(q)@.capacity,
            final(q)@.producers == old(q)@.producers,
            final(q)@.stream == old(q)@.stream,
            final(q)@.groups == old(q)@.groups.push(
                GroupModel {
                    members: 1,
                    cursor: old(q)@.stream.len(),
                    start: old(q)@.stream.len(),
                    taken: Seq::empty(),
                },
            ),
            r2.group_id() == old(q)@.groups.len(),
    {
        let gid = q.add_group();
        BroadcastReceiver { group: gid }
    }

    /// Removes this reader; its group retires and the reads it still owed are
    /// released, so it no longer blocks slot reuse.  Returns true when the
    /// group is emptied, which for a broadcast reader is always.
    pub fn unsubscribe<T>(self, q: &mut MultiQueue<T>) -> (last: bool)
        requires
            old(q).inv(),
            0 <= self.group_id() < old(q)@.groups.len(),
            is_live(old(q)@.groups[self.group_id()]),
        ensures
            final(q).inv(),
            final(q).is_single_stream() == old(q).is_single_stream(),
            final(q).strategy() == old(q).strategy(),
            final(q)@.capacity == old(q)@.capacity,
            final(q)@.producers == old(q)@.producers,
            final(q)@.stream == old(q)@.stream,
            final(q)@.groups == old(q)@.groups.update(
                self.group_id(),
                GroupModel {
                    members: (old(q)@.groups[self.group_id()].members - 1) as nat,
                    ..old(q)@.groups[self.group_id()]
                },
            ),
            last == (old(q)@.groups[self.group_id()].members == 1),
    {
        q.remove_member(self.group)
    }
}

} // verus!
