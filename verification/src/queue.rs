//! The shared ring-buffer engine.
//!
//! A fixed array of slots is indexed by `position % capacity`.  Each slot
//! carries the element, the position tag written at publish time, and a
//! pending-read counter.  At publish the counter is set to the number of live
//! consumer groups; each group decrements it when it finishes the slot, and a
//! producer may reuse the slot only once the counter is back at zero.  The
//! invariant ties every counter to the model: it always equals the number of
//! live groups whose cursor has not yet passed the slot's occupant, which is
//! what makes the guard sound — no live reader can ever be lapped, and no slot
//! is reused while a read is owed.
//!
//! In a lock-free deployment of this protocol the tail, the cursors and the
//! counters would be atomics claimed by compare-and-swap; this engine
//! verifies the protocol itself, so each claim is a plain update whose
//! contract states exactly what the winning claimant may conclude.

use vstd::prelude::*;

use crate::errors::{TrySendError, TryRecvError, RecvError};
use crate::model::{
    GroupModel, QueueModel, is_live, owes_one, owed, count_live, group_ok, wf,
    has_live, can_accept, window_start, lemma_owed_update, lemma_count_live_update,
    lemma_owed_push, lemma_count_live_push, lemma_owed_at_least, lemma_owed_witness,
    lemma_owed_full, lemma_count_live_witness, lemma_count_live_at_least,
    lemma_count_live_bound,
};
use crate::position::{is_pow2, lemma_window_distinct, lemma_prev_epoch_same_slot};
use crate::wait::WaitStrategy;

verus! {

/// One storage cell: the element (absent until first written, or after a
/// destructive read), the position tag of the current occupant, and the
/// pending-read counter that guards reuse.
struct Slot<T> {
    value: Option<T>,
    tag: usize,
    pending: usize,
}

/// One consumer group: live-member count and the shared claim cursor, plus
/// the ghost subscription point and receipt log that the contracts speak of.
struct Group<T> {
    members: usize,
    cursor: usize,
    start: Ghost<nat>,
    taken: Ghost<Seq<T>>,
}

impl<T> View for Group<T> {
    type V = GroupModel<T>;

    closed spec fn view(&self) -> GroupModel<T> {
        GroupModel {
            members: self.members as nat,
            cursor: self.cursor as nat,
            start: self.start@,
            taken: self.taken@,
        }
    }
}

/// The queue engine shared by every producer and consumer handle.
pub struct MultiQueue<T> {
    slots: Vec<Slot<T>>,
    cap: usize,
    tail: usize,
    groups: Vec<Group<T>>,
    live: usize,
    senders: usize,
    single_stream: bool,
    wait: WaitStrategy,
    hist: Ghost<Seq<T>>,
}

impl<T> View for MultiQueue<T> {
    type V = QueueModel<T>;

    closed spec fn view(&self) -> QueueModel<T> {
        QueueModel {
            stream: self.hist@,
            capacity: self.cap as nat,
            producers: self.senders as nat,
            groups: self.groups@.map_values(|g: Group<T>| g@),
        }
    }
}

impl<T> MultiQueue<T> {
    /// The slot occupied by position `p` is correctly tagged and counted.
    spec fn slot_ok(self, p: int) -> bool {
        let i = p % (self.cap as int);
        &&& self.slots@[i].tag == p
        &&& self.slots@[i].pending == owed(self@.groups, p)
        &&& owed(self@.groups, p) > 0 ==> self.slots@[i].value == Some(self@.stream[p])
    }

    /// The full engine invariant.  Constructors establish it and every
    /// operation preserves it.
    pub closed spec fn inv(self) -> bool {
        &&& self.cap >= 1
        &&& is_pow2(self.cap as nat)
        &&& self.slots@.len() == self.cap
        &&& self.tail == self.hist@.len()
        &&& self.live == count_live(self@.groups)
        &&& wf(self@)
        &&& self.single_stream ==> self.groups@.len() == 1
        &&& forall|p: int| window_start(self@) <= p < self.hist@.len() ==> #[trigger] self.slot_ok(p)
        &&& self.tail < self.cap
            ==> forall|i: int| self.tail <= i < self.cap ==> self.slots@[i].pending == 0
    }

    /// Work-sharing queues have a single group for their whole lifetime,
    /// which is what entitles their winners to a destructive read.
    pub closed spec fn is_single_stream(self) -> bool {
        self.single_stream
    }

    /// The wait strategy chosen at construction.
    pub closed spec fn strategy(self) -> WaitStrategy {
        self.wait
    }

    /// Builds the engine with one initial group of one member and one
    /// producer.  A capacity that is not a power of two is a construction
    /// contract violation, so it is excluded here rather than handled.
    fn new(capacity: usize, single_stream: bool, wait: WaitStrategy) -> (q: Self)
        requires
            is_pow2(capacity as nat),
        ensures
            q.inv(),
            q.is_single_stream() == single_stream,
            q.strategy() == wait,
            q@.capacity == capacity,
            q@.stream =~= Seq::<T>::empty(),
            q@.producers == 1,
            q@.groups =~= seq![GroupModel::<T> { members: 1, cursor: 0, start: 0, taken: Seq::empty() }],
    {
        let mut slots: Vec<Slot<T>> = Vec::new();
        let mut k: usize = 0;
        while k < capacity
            invariant
                k <= capacity,
                slots@.len() == k,
                forall|i: int| 0 <= i < k ==> slots@[i].pending == 0,
            decreases capacity - k,
        {
            slots.push(Slot { value: None, tag: 0, pending: 0 });
            k = k + 1;
        }
        let mut groups: Vec<Group<T>> = Vec::new();
        groups.push(Group { members: 1, cursor: 0, start: Ghost(0nat), taken: Ghost(Seq::empty()) });
        let q = MultiQueue {
            slots,
            cap: capacity,
            tail: 0,
            groups,
            live: 1,
            senders: 1,
            single_stream,
            wait,
            hist: Ghost(Seq::empty()),
        };
        proof {
            assert(q@.groups =~= seq![GroupModel::<T> {
                members: 1, cursor: 0, start: 0, taken: Seq::empty() }]);
            lemma_count_live_push(Seq::<GroupModel<T>>::empty(), q@.groups[0]);
            assert(q@.groups.drop_last() =~= Seq::<GroupModel<T>>::empty());
            assert(count_live(q@.groups) == 1);
        }
        q
    }

    /// Builds a work-sharing engine: one consumer group for its whole
    /// lifetime, whose members share the claim cursor.
    pub fn new_single_stream(capacity: usize, wait: WaitStrategy) -> (q: Self)
        requires
            is_pow2(capacity as nat),
        ensures
            q.inv(),
            q.is_single_stream(),
            q.strategy() == wait,
            q@.capacity == capacity,
            q@.stream =~= Seq::<T>::empty(),
            q@.producers == 1,
            q@.groups =~= seq![GroupModel::<T> { members: 1, cursor: 0, start: 0, taken: Seq::empty() }],
    {
        Self::new(capacity, true, wait)
    }

    /// Builds a broadcast engine: new groups with independent cursors may
    /// subscribe while the queue is live, and each live group sees every
    /// element.
    pub fn new_broadcast(capacity: usize, wait: WaitStrategy) -> (q: Self)
        requires
            is_pow2(capacity as nat),
        ensures
            q.inv(),
            !q.is_single_stream(),
            q.strategy() == wait,
            q@.capacity == capacity,
            q@.stream =~= Seq::<T>::empty(),
            q@.producers == 1,
            q@.groups =~= seq![GroupModel::<T> { members: 1, cursor: 0, start: 0, taken: Seq::empty() }],
    {
        Self::new(capacity, false, wait)
    }

    /// Non-blocking send.
    ///
    /// Succeeds exactly when a live consumer group remains and every live
    /// group has finished the slot the value would overwrite; the value then
    /// becomes the next element of the stream and nothing else changes.
    /// Fails with `Disconnected` exactly when no live group remains, and with
    /// `Full` exactly when some live group still owes a read of the target
    /// slot; either failure returns the value and leaves the queue unchanged.
    pub fn try_send(&mut self, val: T) -> (r: Result<(), TrySendError<T>>)
        requires
            old(self).inv(),
            old(self)@.stream.len() < usize::MAX,
        ensures
            final(self).inv(),
            final(self).is_single_stream() == old(self).is_single_stream(),
            final(self).strategy() == old(self).strategy(),
            final(self)@.capacity == old(self)@.capacity,
            final(self)@.producers == old(self)@.producers,
            final(self)@.groups == old(self)@.groups,
            match r {
                Ok(()) => {
                    &&& has_live(old(self)@)
                    &&& can_accept(old(self)@)
                    &&& final(self)@.stream == old(self)@.stream.push(val)
                },
                Err(TrySendError::Disconnected(v)) => {
                    &&& !has_live(old(self)@)
                    &&& v == val
                    &&& final(self)@ == old(self)@
                },
                Err(TrySendError::Full(v)) => {
                    &&& has_live(old(self)@)
                    &&& !can_accept(old(self)@)
                    &&& v == val
                    &&& final(self)@ == old(self)@
                },
            },
    {
        let ghost m0 = self@;
        if self.live == 0 {
            proof {
                if has_live(m0) {
                    let i = choose|i: int| 0 <= i < m0.groups.len() && is_live(#[trigger] m0.groups[i]);
                    lemma_count_live_at_least(m0.groups, i);
                }
            }
            return Err(TrySendError::Disconnected(val));
        }
        proof {
            lemma_count_live_witness(m0.groups);
        }
        let i = crate::position::ring_index(self.tail, self.cap);
        if self.slots[i].pending != 0 {
            proof {
                // A non-zero counter means the previous occupant, one epoch
                // back, is still owed to some live group: the slot must not be reused yet.
                assert(self.tail >= self.cap) by {
                    if self.tail < self.cap {
                        vstd::arithmetic::div_mod::lemma_small_mod(
                            self.tail as nat, self.cap as nat);
                        assert(self.slots@[self.tail as int].pending == 0);
                    }
                };
                let p0 = self.tail - self.cap as int;
                lemma_prev_epoch_same_slot(self.tail as int, self.cap as int);
                assert(self.slot_ok(p0));
                lemma_owed_witness(m0.groups, p0);
                let w = choose|w: int|
                    0 <= w < m0.groups.len() && is_live(#[trigger] m0.groups[w])
                        && m0.groups[w].cursor <= p0;
                assert(!(m0.stream.len() < m0.groups[w].cursor + m0.capacity));
            }
            return Err(TrySendError::Full(val));
        }
        proof {
            // The reuse guard is open: every live group has passed the previous
            // occupant, so the publish keeps everyone within one ring.
            assert forall|k: int| 0 <= k < m0.groups.len() && is_live(#[trigger] m0.groups[k])
                implies m0.stream.len() < m0.groups[k].cursor + m0.capacity by {
                if self.tail >= self.cap {
                    let p0 = self.tail - self.cap as int;
                    lemma_prev_epoch_same_slot(self.tail as int, self.cap as int);
                    assert(self.slot_ok(p0));
                    lemma_owed_at_least(m0.groups, k, p0);
                } else {
                    vstd::arithmetic::div_mod::lemma_small_mod(
                        self.tail as nat, self.cap as nat);
                }
            };
        }
        let ghost v = val;
        let p = self.tail;
        self.slots[i] = Slot { value: Some(val), tag: p, pending: self.live };
        self.tail = self.tail + 1;
        proof {
            self.hist@ = self.hist@.push(v);
        }
        proof {
            let m2 = self@;
            assert(m2.groups =~= m0.groups);
            assert(m2.stream =~= m0.stream.push(v));
            lemma_owed_full(m0.groups, p as int);
            assert(self.slot_ok(p as int));
            assert forall|q: int| window_start(m2) <= q < m2.stream.len() && q != p as int
                implies #[trigger] self.slot_ok(q) by {
                lemma_window_distinct(q, p as int, self.cap as int);
                assert(old(self).slot_ok(q));
            };
            if self.tail < self.cap {
                vstd::arithmetic::div_mod::lemma_small_mod(p as nat, self.cap as nat);
            }
            assert forall|k: int| 0 <= k < m2.groups.len()
                implies group_ok(m2, #[trigger] m2.groups[k]) by {
                assert(group_ok(m0, m0.groups[k]));
            };
        }
        Ok(())
    }

    /// Ghost bookkeeping shared by every successful claim: advancing one live
    /// group's cursor past position `p` decrements the owed count at `p` and
    /// leaves it unchanged at every other position.
    proof fn lemma_claim(
        gs: Seq<GroupModel<T>>,
        gid: int,
        g2: GroupModel<T>,
        p: int,
    )
        requires
            0 <= gid < gs.len(),
            is_live(gs[gid]),
            gs[gid].cursor == p,
            g2.members == gs[gid].members,
            g2.cursor == p + 1,
        ensures
            owed(gs.update(gid, g2), p) == owed(gs, p) - 1,
            owed(gs, p) >= 1,
            forall|q: int| q != p ==> owed(gs.update(gid, g2), q) == #[trigger] owed(gs, q),
            count_live(gs.update(gid, g2)) == count_live(gs),
    {
        lemma_owed_update(gs, gid, g2, p);
        lemma_owed_at_least(gs, gid, p);
        lemma_count_live_update(gs, gid, g2);
        assert forall|q: int| q != p implies owed(gs.update(gid, g2), q) == #[trigger] owed(gs, q) by {
            lemma_owed_update(gs, gid, g2, q);
        };
    }

    /// The claim made by every receive variant before it reads: the group's
    /// cursor points at a published, correctly tagged slot whose value is
    /// still present.
    proof fn lemma_claim_target(self, gid: int)
        requires
            self.inv(),
            0 <= gid < self@.groups.len(),
            is_live(self@.groups[gid]),
            self@.groups[gid].cursor < self@.stream.len(),
        ensures
            self.slot_ok(self@.groups[gid].cursor as int),
            owed(self@.groups, self@.groups[gid].cursor as int) >= 1,
    {
        let p = self@.groups[gid].cursor as int;
        assert(group_ok(self@, self@.groups[gid]));
        assert(self.slot_ok(p));
        lemma_owed_at_least(self@.groups, gid, p);
    }

    /// Blocking work-sharing receive: retries the non-blocking claim under
    /// the queue's wait strategy.  Returns an element or `Disconnected` as
    /// the non-blocking path would; once the strategy's retry budget is
    /// spent with the queue still empty, gives up with the same transient
    /// `Empty` outcome as the non-blocking path.
    pub fn recv_take(&mut self, gid: usize) -> (r: Result<T, RecvError>)
        requires
            old(self).inv(),
            old(self).is_single_stream(),
            gid < old(self)@.groups.len(),
            is_live(old(self)@.groups[gid as int]),
        ensures
            final(self).inv(),
            final(self).is_single_stream(),
            final(self).strategy() == old(self).strategy(),
            final(self)@.capacity == old(self)@.capacity,
            final(self)@.producers == old(self)@.producers,
            final(self)@.stream == old(self)@.stream,
            final(self)@.groups.len() == old(self)@.groups.len(),
            match r {
                Ok(v) => {
                    let g = old(self)@.groups[gid as int];
                    &&& g.cursor < old(self)@.stream.len()
                    &&& v == old(self)@.stream[g.cursor as int]
                    &&& final(self)@.groups == old(self)@.groups.update(
                        gid as int,
                        GroupModel { cursor: (g.cursor + 1) as nat, taken: g.taken.push(v), ..g },
                    )
                },
                Err(RecvError::Empty) => {
                    &&& old(self)@.groups[gid as int].cursor == old(self)@.stream.len()
                    &&& old(self)@.producers > 0
                    &&& final(self)@ == old(self)@
                },
                Err(RecvError::Disconnected) => {
                    &&& old(self)@.groups[gid as int].cursor == old(self)@.stream.len()
                    &&& old(self)@.producers == 0
                    &&& final(self)@ == old(self)@
                },
            },
    {
        let ghost q0 = *self;
        let mut tries = self.wait.budget();
        loop
            invariant
                self.inv(),
                self@ == q0@,
                self.is_single_stream() == q0.is_single_stream(),
                self.strategy() == q0.strategy(),
            decreases tries,
        {
            match self.try_recv_take(gid) {
                Ok(v) => {
                    return Ok(v);
                },
                Err(TryRecvError::Disconnected) => {
                    return Err(RecvError::Disconnected);
                },
                Err(TryRecvError::Lapped) => {
                    return vstd::pervasive::unreached();
                },
                Err(TryRecvError::Empty) => {
                    if tries == 0 {
                        return Err(RecvError::Empty);
                    }
                    tries = tries - 1;
                },
            }
        }
    }

    /// Non-blocking in-place view for the statically known single consumer:
    /// claims the next position exactly as a work-sharing receive does, but
    /// hands the element to the closure by reference instead of relocating
    /// it.  On failure the closure is handed back untouched beside the same
    /// outcome the plain receive would report.
    pub fn try_recv_view<R, F: FnOnce(&T) -> R>(&mut self, gid: usize, op: F) -> (r: Result<
        R,
        (F, TryRecvError),
    >)
        requires
            old(self).inv(),
            old(self).is_single_stream(),
            gid < old(self)@.groups.len(),
            is_live(old(self)@.groups[gid as int]),
            old(self)@.groups[gid as int].cursor < old(self)@.stream.len() ==> call_requires(
                op,
                (&old(self)@.stream[old(self)@.groups[gid as int].cursor as int],),
            ),
        ensures
            final(self).inv(),
            final(self).is_single_stream(),
            final(self).strategy() == old(self).strategy(),
            final(self)@.capacity == old(self)@.capacity,
            final(self)@.producers == old(self)@.producers,
            final(self)@.stream == old(self)@.stream,
            final(self)@.groups.len() == old(self)@.groups.len(),
            match r {
                Ok(res) => {
                    let g = old(self)@.groups[gid as int];
                    &&& g.cursor < old(self)@.stream.len()
                    &&& call_ensures(op, (&old(self)@.stream[g.cursor as int],), res)
                    &&& final(self)@.groups == old(self)@.groups.update(
                        gid as int,
                        GroupModel {
                            cursor: (g.cursor + 1) as nat,
                            taken: g.taken.push(old(self)@.stream[g.cursor as int]),
                            ..g
                        },
                    )
                },
                Err((op2, TryRecvError::Empty)) => {
                    &&& old(self)@.groups[gid as int].cursor == old(self)@.stream.len()
                    &&& old(self)@.producers > 0
                    &&& op2 == op
                    &&& final(self)@ == old(self)@
                },
                Err((op2, TryRecvError::Disconnected)) => {
                    &&& old(self)@.groups[gid as int].cursor == old(self)@.stream.len()
                    &&& old(self)@.producers == 0
                    &&& op2 == op
                    &&& final(self)@ == old(self)@
                },
                Err((_, TryRecvError::Lapped)) => false,
            },
    {
        let cur = self.groups[gid].cursor;
        if cur == self.tail {
            if self.senders == 0 {
                return Err((op, TryRecvError::Disconnected));
            }
            return Err((op, TryRecvError::Empty));
        }
        match self.try_recv_take(gid) {
            Ok(v) => Ok(op(&v)),
            Err(_) => vstd::pervasive::unreached(),
        }
    }

    /// Blocking counterpart of the in-place view, under the queue's wait
    /// strategy; gives up with `Empty` once the retry budget is spent.
    pub fn recv_view<R, F: FnOnce(&T) -> R>(&mut self, gid: usize, op: F) -> (r: Result<
        R,
        (F, RecvError),
    >)
        requires
            old(self).inv(),
            old(self).is_single_stream(),
            gid < old(self)@.groups.len(),
            is_live(old(self)@.groups[gid as int]),
            old(self)@.groups[gid as int].cursor < old(self)@.stream.len() ==> call_requires(
                op,
                (&old(self)@.stream[old(self)@.groups[gid as int].cursor as int],),
            ),
        ensures
            final(self).inv(),
            final(self).is_single_stream(),
            final(self).strategy() == old(self).strategy(),
            final(self)@.capacity == old(self)@.capacity,
            final(self)@.producers == old(self)@.producers,
            final(self)@.stream == old(self)@.stream,
            final(self)@.groups.len() == old(self)@.groups.len(),
            match r {
                Ok(res) => {
                    let g = old(self)@.groups[gid as int];
                    &&& g.cursor < old(self)@.stream.len()
                    &&& call_ensures(op, (&old(self)@.stream[g.cursor as int],), res)
                    &&& final(self)@.groups == old(self)@.groups.update(
                        gid as int,
                        GroupModel {
                            cursor: (g.cursor + 1) as nat,
                            taken: g.taken.push(old(self)@.stream[g.cursor as int]),
                            ..g
                        },
                    )
                },
                Err((op2, RecvError::Empty)) => {
                    &&& old(self)@.groups[gid as int].cursor == old(self)@.stream.len()
                    &&& old(self)@.producers > 0
                    &&& op2 == op
                    &&& final(self)@ == old(self)@
                },
                Err((op2, RecvError::Disconnected)) => {
                    &&& old(self)@.groups[gid as int].cursor == old(self)@.stream.len()
                    &&& old(self)@.producers == 0
                    &&& op2 == op
                    &&& final(self)@ == old(self)@
                },
            },
    {
        let ghost q0 = *self;
        let mut tries = self.wait.budget();
        let mut op2 = op;
        loop
            invariant
                self.inv(),
                self@ == q0@,
                self.is_single_stream() == q0.is_single_stream(),
                self.strategy() == q0.strategy(),
                op2 == op,
            decreases tries,
        {
            match self.try_recv_view(gid, op2) {
                Ok(res) => {
                    return Ok(res);
                },
                Err((op3, TryRecvError::Disconnected)) => {
                    return Err((op3, RecvError::Disconnected));
                },
                Err((_, TryRecvError::Lapped)) => {
                    return vstd::pervasive::unreached();
                },
                Err((op3, TryRecvError::Empty)) => {
                    if tries == 0 {
                        return Err((op3, RecvError::Empty));
                    }
                    tries = tries - 1;
                    op2 = op3;
                },
            }
        }
    }

    /// Non-blocking work-sharing receive: the caller claims the group's next
    /// position and is its exclusive consumer, so the read is destructive.
    ///
    /// Returns exactly the element at the group's cursor whenever one is
    /// published; `Empty` exactly when the group has drained the stream while
    /// producers remain; `Disconnected` exactly when it has drained the
    /// stream and every producer is gone.  A live group is never lapped.
    pub fn try_recv_take(&mut self, gid: usize) -> (r: Result<T, TryRecvError>)
        requires
            old(self).inv(),
            old(self).is_single_stream(),
            gid < old(self)@.groups.len(),
            is_live(old(self)@.groups[gid as int]),
        ensures
            final(self).inv(),
            final(self).is_single_stream(),
            final(self).strategy() == old(self).strategy(),
            final(self)@.capacity == old(self)@.capacity,
            final(self)@.producers == old(self)@.producers,
            final(self)@.stream == old(self)@.stream,
            final(self)@.groups.len() == old(self)@.groups.len(),
            match r {
                Ok(v) => {
                    let g = old(self)@.groups[gid as int];
                    &&& g.cursor < old(self)@.stream.len()
                    &&& v == old(self)@.stream[g.cursor as int]
                    &&& final(self)@.groups == old(self)@.groups.update(
                        gid as int,
                        GroupModel { cursor: (g.cursor + 1) as nat, taken: g.taken.push(v), ..g },
                    )
                },
                Err(TryRecvError::Empty) => {
                    &&& old(self)@.groups[gid as int].cursor == old(self)@.stream.len()
                    &&& old(self)@.producers > 0
                    &&& final(self)@ == old(self)@
                },
                Err(TryRecvError::Disconnected) => {
                    &&& old(self)@.groups[gid as int].cursor == old(self)@.stream.len()
                    &&& old(self)@.producers == 0
                    &&& final(self)@ == old(self)@
                },
                Err(TryRecvError::Lapped) => false,
            },
    {
        let ghost m0 = self@;
        let cur = self.groups[gid].cursor;
        if cur == self.tail {
            if self.senders == 0 {
                return Err(TryRecvError::Disconnected);
            }
            return Err(TryRecvError::Empty);
        }
        proof {
            self.lemma_claim_target(gid as int);
        }
        let p = cur;
        let i = crate::position::ring_index(p, self.cap);
        if self.slots[i].tag != p {
            // The tag protocol proves this reader cannot have been lapped:
            // the invariant pins the tag to the expected position.
            return Err(TryRecvError::Lapped);
        }
        // The single group owes the only read, so the slot empties here.
        let mut s = self.slots.remove(i);
        let got = s.value.take();
        let pend = s.pending;
        proof {
            assert(owed(m0.groups, p as int) == owes_one(m0.groups[0], p as int)) by {
                assert(m0.groups.len() == 1);
                assert(m0.groups.last() == m0.groups[0]);
                assert(m0.groups.drop_last() =~= Seq::<GroupModel<T>>::empty());
                assert(owed(m0.groups.drop_last(), p as int) == 0);
            };
        }
        s.pending = pend - 1;
        self.slots.insert(i, s);
        let v = match got {
            Some(v) => v,
            None => vstd::pervasive::unreached(),
        };
        let ghost vg = v;
        let mem = self.groups[gid].members;
        let ghost st = self.groups@[gid as int].start@;
        let ghost tk = self.groups@[gid as int].taken@;
        self.groups[gid] = Group {
            members: mem,
            cursor: p + 1,
            start: Ghost(st),
            taken: Ghost(tk.push(vg)),
        };
        proof {
            self.hist@ = m0.stream;
            let g2 = GroupModel {
                cursor: (p + 1) as nat,
                taken: m0.groups[gid as int].taken.push(vg),
                ..m0.groups[gid as int]
            };
            let m2 = self@;
            assert(self.slots@ =~= old(self).slots@.update(i as int, self.slots@[i as int]));
            assert(self.slots@[i as int].value is None);
            assert(self.slots@[i as int].tag == p);
            assert(self.slots@[i as int].pending == pend - 1);
            assert(m2.groups =~= m0.groups.update(gid as int, g2));
            Self::lemma_claim(m0.groups, gid as int, g2, p as int);
            assert forall|q: int| window_start(m2) <= q < m2.stream.len()
                implies #[trigger] self.slot_ok(q) by {
                assert(old(self).slot_ok(q));
                if q != p as int {
                    lemma_window_distinct(
                        if q < p as int { q } else { p as int },
                        if q < p as int { p as int } else { q },
                        self.cap as int,
                    );
                }
            };
            if self.tail < self.cap {
                vstd::arithmetic::div_mod::lemma_small_mod(p as nat, self.cap as nat);
            }
            assert forall|k: int| 0 <= k < m2.groups.len()
                implies group_ok(m2, #[trigger] m2.groups[k]) by {
                assert(group_ok(m0, m0.groups[k]));
            };
        }
        Ok(v)
    }
}

impl<T> MultiQueue<T> {
    /// The pending counter of the slot position `pp` maps to.
    spec fn pending_of(self, pp: int) -> nat {
        self.slots@[pp % (self.cap as int)].pending as nat
    }

    /// The invariant does not depend on the producer count or the wait
    /// strategy: a state that differs from a well-formed one only there is
    /// well-formed too.
    proof fn lemma_registry_frame(self, pre: Self)
        requires
            pre.inv(),
            self.slots == pre.slots,
            self.cap == pre.cap,
            self.tail == pre.tail,
            self.groups == pre.groups,
            self.live == pre.live,
            self.single_stream == pre.single_stream,
            self.hist == pre.hist,
        ensures
            self.inv(),
    {
        assert(self@.groups =~= pre@.groups);
        assert forall|p: int| window_start(self@) <= p < self@.stream.len()
            implies #[trigger] self.slot_ok(p) by {
            assert(pre.slot_ok(p));
        };
        assert forall|k: int| 0 <= k < self@.groups.len()
            implies group_ok(self@, #[trigger] self@.groups[k]) by {
            assert(group_ok(pre@, pre@.groups[k]));
        };
    }

    /// The ring capacity chosen at construction.
    pub fn capacity(&self) -> (c: usize)
        ensures
            c == self@.capacity,
    {
        self.cap
    }

    /// How many positions have been published so far.
    pub fn stream_len(&self) -> (n: usize)
        requires
            self.inv(),
        ensures
            n == self@.stream.len(),
    {
        self.tail
    }

    /// How many producer handles are live.
    pub fn producer_count(&self) -> (n: usize)
        ensures
            n == self@.producers,
    {
        self.senders
    }

    /// How many member handles a group has.
    pub fn member_count(&self, gid: usize) -> (n: usize)
        requires
            gid < self@.groups.len(),
        ensures
            n == self@.groups[gid as int].members,
    {
        self.groups[gid].members
    }

    /// Registers one more producer handle (a clone of an existing one).
    pub fn add_sender(&mut self)
        requires
            old(self).inv(),
            old(self)@.producers < usize::MAX,
        ensures
            final(self).inv(),
            final(self).is_single_stream() == old(self).is_single_stream(),
            final(self).strategy() == old(self).strategy(),
            final(self)@ == (QueueModel { producers: old(self)@.producers + 1, ..old(self)@ }),
    {
        self.senders = self.senders + 1;
        proof {
            self.lemma_registry_frame(*old(self));
        }
    }

    /// Removes one producer handle.  Once the count reaches zero the stream
    /// is closed for writes: readers that drain it then see `Disconnected`.
    pub fn remove_sender(&mut self)
        requires
            old(self).inv(),
            old(self)@.producers >= 1,
        ensures
            final(self).inv(),
            final(self).is_single_stream() == old(self).is_single_stream(),
            final(self).strategy() == old(self).strategy(),
            final(self)@ == (QueueModel { producers: (old(self)@.producers - 1) as nat, ..old(self)@ }),
    {
        self.senders = self.senders - 1;
        proof {
            self.lemma_registry_frame(*old(self));
        }
    }

    /// Adds one member handle to an existing live group: the work-sharing
    /// clone, which joins the group's shared cursor.
    pub fn add_member(&mut self, gid: usize)
        requires
            old(self).inv(),
            gid < old(self)@.groups.len(),
            is_live(old(self)@.groups[gid as int]),
            old(self)@.groups[gid as int].members < usize::MAX,
        ensures
            final(self).inv(),
            final(self).is_single_stream() == old(self).is_single_stream(),
            final(self).strategy() == old(self).strategy(),
            final(self)@.capacity == old(self)@.capacity,
            final(self)@.producers == old(self)@.producers,
            final(self)@.stream == old(self)@.stream,
            final(self)@.groups == old(self)@.groups.update(
                gid as int,
                GroupModel {
                    members: old(self)@.groups[gid as int].members + 1,
                    ..old(self)@.groups[gid as int]
                },
            ),
    {
        let ghost m0 = self@;
        let mem = self.groups[gid].members;
        let cur = self.groups[gid].cursor;
        let ghost st = self.groups@[gid as int].start@;
        let ghost tk = self.groups@[gid as int].taken@;
        self.groups[gid] = Group { members: mem + 1, cursor: cur, start: Ghost(st), taken: Ghost(tk) };
        proof {
            let g2 = GroupModel { members: m0.groups[gid as int].members + 1, ..m0.groups[gid as int] };
            let m2 = self@;
            assert(m2.groups =~= m0.groups.update(gid as int, g2));
            lemma_count_live_update(m0.groups, gid as int, g2);
            assert forall|q: int| window_start(m2) <= q < m2.stream.len()
                implies #[trigger] self.slot_ok(q) by {
                assert(old(self).slot_ok(q));
                lemma_owed_update(m0.groups, gid as int, g2, q);
            };
            assert forall|k: int| 0 <= k < m2.groups.len()
                implies group_ok(m2, #[trigger] m2.groups[k]) by {
                assert(group_ok(m0, m0.groups[k]));
            };
        }
    }

    /// Subscribes a fresh group whose cursor starts at the current published
    /// position: the broadcast clone.  It owes nothing already published, so
    /// no pending counter moves.  Returns the new group's id.
    pub fn add_group(&mut self) -> (gid: usize)
        requires
            old(self).inv(),
            !old(self).is_single_stream(),
            old(self)@.groups.len() < usize::MAX,
        ensures
            final(self).inv(),
            !final(self).is_single_stream(),
            final(self).strategy() == old(self).strategy(),
            final(self)@.capacity == old(self)@.capacity,
            final(self)@.producers == old(self)@.producers,
            final(self)@.stream == old(self)@.stream,
            gid == old(self)@.groups.len(),
            final(self)@.groups == old(self)@.groups.push(
                GroupModel {
                    members: 1,
                    cursor: old(self)@.stream.len(),
                    start: old(self)@.stream.len(),
                    taken: Seq::empty(),
                },
            ),
    {
        let ghost m0 = self@;
        proof {
            lemma_count_live_bound(m0.groups);
        }
        let gid = self.groups.len();
        self.groups.push(Group {
            members: 1,
            cursor: self.tail,
            start: Ghost(self.tail as nat),
            taken: Ghost(Seq::empty()),
        });
        self.live = self.live + 1;
        proof {
            let g2 = GroupModel {
                members: 1nat,
                cursor: m0.stream.len(),
                start: m0.stream.len(),
                taken: Seq::<T>::empty(),
            };
            let m2 = self@;
            assert(m2.groups =~= m0.groups.push(g2));
            lemma_count_live_push(m0.groups, g2);
            assert forall|q: int| window_start(m2) <= q < m2.stream.len()
                implies #[trigger] self.slot_ok(q) by {
                assert(old(self).slot_ok(q));
                lemma_owed_push(m0.groups, g2, q);
            };
            assert forall|k: int| 0 <= k < m2.groups.len()
                implies group_ok(m2, #[trigger] m2.groups[k]) by {
                if k < m0.groups.len() {
                    assert(group_ok(m0, m0.groups[k]));
                }
            };
        }
        gid
    }

    /// Removes one member handle from a live group; reports whether it was
    /// the last one.  When the group retires, every read it still owed is
    /// released: the pending counter of each unconsumed slot in its window is
    /// decremented, so the retired group no longer blocks slot reuse, and a
    /// producer blocked on a full ring can go on.
    pub fn remove_member(&mut self, gid: usize) -> (last: bool)
        requires
            old(self).inv(),
            gid < old(self)@.groups.len(),
            is_live(old(self)@.groups[gid as int]),
        ensures
            final(self).inv(),
            final(self).is_single_stream() == old(self).is_single_stream(),
            final(self).strategy() == old(self).strategy(),
            final(self)@.capacity == old(self)@.capacity,
            final(self)@.producers == old(self)@.producers,
            final(self)@.stream == old(self)@.stream,
            final(self)@.groups == old(self)@.groups.update(
                gid as int,
                GroupModel {
                    members: (old(self)@.groups[gid as int].members - 1) as nat,
                    ..old(self)@.groups[gid as int]
                },
            ),
            last == (old(self)@.groups[gid as int].members == 1),
    {
        let ghost m0 = self@;
        let mem = self.groups[gid].members;
        let cur = self.groups[gid].cursor;
        let ghost st = self.groups@[gid as int].start@;
        let ghost tk = self.groups@[gid as int].taken@;
        self.groups[gid] = Group { members: mem - 1, cursor: cur, start: Ghost(st), taken: Ghost(tk) };
        let ghost g2 = GroupModel {
            members: (m0.groups[gid as int].members - 1) as nat,
            ..m0.groups[gid as int]
        };
        proof {
            assert(self@.groups =~= m0.groups.update(gid as int, g2));
            lemma_count_live_update(m0.groups, gid as int, g2);
        }
        if mem > 1 {
            proof {
                let m2 = self@;
                assert forall|q: int| window_start(m2) <= q < m2.stream.len()
                    implies #[trigger] self.slot_ok(q) by {
                    assert(old(self).slot_ok(q));
                    lemma_owed_update(m0.groups, gid as int, g2, q);
                };
                assert forall|k: int| 0 <= k < m2.groups.len()
                    implies group_ok(m2, #[trigger] m2.groups[k]) by {
                    assert(group_ok(m0, m0.groups[k]));
                };
            }
            return false;
        }
        proof {
            lemma_count_live_at_least(m0.groups, gid as int);
            assert forall|q: int| true implies owed(self@.groups, q)
                + owes_one(m0.groups[gid as int], q) == #[trigger] owed(m0.groups, q) by {
                lemma_owed_update(m0.groups, gid as int, g2, q);
            };
            assert(group_ok(m0, m0.groups[gid as int]));
        }
        self.live = self.live - 1;
        proof {
            assert forall|pp: int| window_start(self@) <= pp < self@.stream.len()
                implies #[trigger] self.pending_of(pp) == owed(self@.groups, pp)
                    + (if cur <= pp { owes_one(m0.groups[gid as int], pp) } else { 0nat })
            by {
                assert(old(self).slot_ok(pp));
            };
        }
        let ghost snap = *self;
        let mut q = cur;
        while q < self.tail
            invariant
                cur <= q <= self.tail,
                self.cap == snap.cap,
                self.tail == snap.tail,
                self.groups == snap.groups,
                self.live == snap.live,
                self.senders == snap.senders,
                self.single_stream == snap.single_stream,
                self.wait == snap.wait,
                self.hist == snap.hist,
                self.slots@.len() == snap.slots@.len(),
                forall|j: int| 0 <= j < self.slots@.len()
                    ==> #[trigger] self.slots@[j].tag == snap.slots@[j].tag
                        && self.slots@[j].value == snap.slots@[j].value,
                forall|pp: int| window_start(self@) <= pp < self@.stream.len()
                    ==> #[trigger] self.pending_of(pp) == owed(self@.groups, pp)
                        + (if q <= pp { owes_one(m0.groups[gid as int], pp) } else { 0nat }),
                self.tail < self.cap
                    ==> forall|ii: int| self.tail <= ii < self.cap ==> self.slots@[ii].pending == 0,
            decreases self.tail - q,
        {
            let i = crate::position::ring_index(q, self.cap);
            let ghost pre = self.slots@;
            let ghost qq = q as int;
            proof {
                assert(group_ok(m0, m0.groups[gid as int]));
                assert(window_start(self@) <= qq < self@.stream.len());
                assert forall|pp: int| window_start(self@) <= pp < self@.stream.len()
                    implies #[trigger] pre[pp % (self.cap as int)].pending == owed(self@.groups, pp)
                        + (if qq <= pp { owes_one(m0.groups[gid as int], pp) } else { 0nat })
                by {
                    assert(self.pending_of(pp) == owed(self@.groups, pp)
                        + (if qq <= pp { owes_one(m0.groups[gid as int], pp) } else { 0nat }));
                };
                assert(owes_one(m0.groups[gid as int], qq) == 1);
                assert(pre[i as int].pending >= 1);
            }
            let mut s = self.slots.remove(i);
            s.pending = s.pending - 1;
            self.slots.insert(i, s);
            proof {
                assert(self.slots@ =~= pre.update(i as int, self.slots@[i as int]));
                assert forall|pp: int| window_start(self@) <= pp < self@.stream.len()
                    implies #[trigger] self.pending_of(pp) == owed(self@.groups, pp)
                        + (if qq + 1 <= pp { owes_one(m0.groups[gid as int], pp) } else { 0nat })
                by {
                    if pp != qq {
                        lemma_window_distinct(
                            if pp < qq { pp } else { qq },
                            if pp < qq { qq } else { pp },
                            self.cap as int,
                        );
                        assert(self.slots@[pp % (self.cap as int)] == pre[pp % (self.cap as int)]);
                        assert(pre[pp % (self.cap as int)].pending == owed(self@.groups, pp)
                            + (if qq <= pp { owes_one(m0.groups[gid as int], pp) } else { 0nat }));
                    } else {
                        assert(self.slots@[i as int].pending == pre[i as int].pending - 1);
                    }
                };
                if self.tail < self.cap {
                    vstd::arithmetic::div_mod::lemma_small_mod(q as nat, self.cap as nat);
                }
            }
            q = q + 1;
        }
        proof {
            let m2 = self@;
            assert(m2.groups =~= m0.groups.update(gid as int, g2));
            assert forall|pp: int| window_start(m2) <= pp < m2.stream.len()
                implies #[trigger] self.slot_ok(pp) by {
                assert(old(self).slot_ok(pp));
                lemma_owed_update(m0.groups, gid as int, g2, pp);
                let ii = pp % (self.cap as int);
                assert(self.slots@[ii].tag == snap.slots@[ii].tag);
                assert(self.slots@[ii].value == snap.slots@[ii].value);
                assert(self.pending_of(pp) == owed(m2.groups, pp)
                    + (if q <= pp { owes_one(m0.groups[gid as int], pp) } else { 0nat }));
            };
            assert forall|k: int| 0 <= k < m2.groups.len()
                implies group_ok(m2, #[trigger] m2.groups[k]) by {
                assert(group_ok(m0, m0.groups[k]));
            };
        }
        true
    }
}

impl<T: Copy> MultiQueue<T> {
    /// Non-blocking broadcast receive for group `gid`: the group takes a copy
    /// of the element at its own cursor, and the slot stays in place for the
    /// other groups that are still owed it.
    ///
    /// Returns exactly the element at the group's cursor whenever one is
    /// published; `Empty` exactly when the group has drained the stream while
    /// producers remain; `Disconnected` exactly when it has drained the
    /// stream and every producer is gone.  A live group is never lapped.
    pub fn try_recv(&mut self, gid: usize) -> (r: Result<T, TryRecvError>)
        requires
            old(self).inv(),
            gid < old(self)@.groups.len(),
            is_live(old(self)@.groups[gid as int]),
        ensures
            final(self).inv(),
            final(self).is_single_stream() == old(self).is_single_stream(),
            final(self).strategy() == old(self).strategy(),
            final(self)@.capacity == old(self)@.capacity,
            final(self)@.producers == old(self)@.producers,
            final(self)@.stream == old(self)@.stream,
            final(self)@.groups.len() == old(self)@.groups.len(),
            match r {
                Ok(v) => {
                    let g = old(self)@.groups[gid as int];
                    &&& g.cursor < old(self)@.stream.len()
                    &&& v == old(self)@.stream[g.cursor as int]
                    &&& final(self)@.groups == old(self)@.groups.update(
                        gid as int,
                        GroupModel { cursor: (g.cursor + 1) as nat, taken: g.taken.push(v), ..g },
                    )
                },
                Err(TryRecvError::Empty) => {
                    &&& old(self)@.groups[gid as int].cursor == old(self)@.stream.len()
                    &&& old(self)@.producers > 0
                    &&& final(self)@ == old(self)@
                },
                Err(TryRecvError::Disconnected) => {
                    &&& old(self)@.groups[gid as int].cursor == old(self)@.stream.len()
                    &&& old(self)@.producers == 0
                    &&& final(self)@ == old(self)@
                },
                Err(TryRecvError::Lapped) => false,
            },
    {
        let ghost m0 = self@;
        let cur = self.groups[gid].cursor;
        if cur == self.tail {
            if self.senders == 0 {
                return Err(TryRecvError::Disconnected);
            }
            return Err(TryRecvError::Empty);
        }
        proof {
            self.lemma_claim_target(gid as int);
        }
        let p = cur;
        let i = crate::position::ring_index(p, self.cap);
        if self.slots[i].tag != p {
            // The tag protocol proves this reader cannot have been lapped:
            // the invariant pins the tag to the expected position.
            return Err(TryRecvError::Lapped);
        }
        let got = self.slots[i].value;
        let pend = self.slots[i].pending;
        let v = match got {
            Some(v) => v,
            None => vstd::pervasive::unreached(),
        };
        // This group is done with the slot; the counter releases its share.
        self.slots[i] = Slot { value: got, tag: p, pending: pend - 1 };
        let ghost vg = v;
        let mem = self.groups[gid].members;
        let ghost st = self.groups@[gid as int].start@;
        let ghost tk = self.groups@[gid as int].taken@;
        self.groups[gid] = Group {
            members: mem,
            cursor: p + 1,
            start: Ghost(st),
            taken: Ghost(tk.push(vg)),
        };
        proof {
            self.hist@ = m0.stream;
            let g2 = GroupModel {
                cursor: (p + 1) as nat,
                taken: m0.groups[gid as int].taken.push(vg),
                ..m0.groups[gid as int]
            };
            let m2 = self@;
            assert(m2.groups =~= m0.groups.update(gid as int, g2));
            Self::lemma_claim(m0.groups, gid as int, g2, p as int);
            assert forall|q: int| window_start(m2) <= q < m2.stream.len()
                implies #[trigger] self.slot_ok(q) by {
                assert(old(self).slot_ok(q));
                if q != p as int {
                    lemma_window_distinct(
                        if q < p as int { q } else { p as int },
                        if q < p as int { p as int } else { q },
                        self.cap as int,
                    );
                }
            };
            if self.tail < self.cap {
                vstd::arithmetic::div_mod::lemma_small_mod(p as nat, self.cap as nat);
            }
            assert forall|k: int| 0 <= k < m2.groups.len()
                implies group_ok(m2, #[trigger] m2.groups[k]) by {
                assert(group_ok(m0, m0.groups[k]));
            };
        }
        Ok(v)
    }

    /// Blocking broadcast receive: retries the non-blocking read under the
    /// queue's wait strategy.  Returns an element or `Disconnected` as the
    /// non-blocking path would; once the strategy's retry budget is spent
    /// with the queue still empty, gives up with the same transient `Empty`
    /// outcome as the non-blocking path.
    pub fn recv(&mut self, gid: usize) -> (r: Result<T, RecvError>)
        requires
            old(self).inv(),
            gid < old(self)@.groups.len(),
            is_live(old(self)@.groups[gid as int]),
        ensures
            final(self).inv(),
            final(self).is_single_stream() == old(self).is_single_stream(),
            final(self).strategy() == old(self).strategy(),
            final(self)@.capacity == old(self)@.capacity,
            final(self)@.producers == old(self)@.producers,
            final(self)@.stream == old(self)@.stream,
            final(self)@.groups.len() == old(self)@.groups.len(),
            match r {
                Ok(v) => {
                    let g = old(self)@.groups[gid as int];
                    &&& g.cursor < old(self)@.stream.len()
                    &&& v == old(self)@.stream[g.cursor as int]
                    &&& final(self)@.groups == old(self)@.groups.update(
                        gid as int,
                        GroupModel { cursor: (g.cursor + 1) as nat, taken: g.taken.push(v), ..g },
                    )
                },
                Err(RecvError::Empty) => {
                    &&& old(self)@.groups[gid as int].cursor == old(self)@.stream.len()
                    &&& old(self)@.producers > 0
                    &&& final(self)@ == old(self)@
                },
                Err(RecvError::Disconnected) => {
                    &&& old(self)@.groups[gid as int].cursor == old(self)@.stream.len()
                    &&& old(self)@.producers == 0
                    &&& final(self)@ == old(self)@
                },
            },
    {
        let ghost q0 = *self;
        let mut tries = self.wait.budget();
        loop
            invariant
                self.inv(),
                self@ == q0@,
                self.is_single_stream() == q0.is_single_stream(),
                self.strategy() == q0.strategy(),
            decreases tries,
        {
            match self.try_recv(gid) {
                Ok(v) => {
                    return Ok(v);
                },
                Err(TryRecvError::Disconnected) => {
                    return Err(RecvError::Disconnected);
                },
                Err(TryRecvError::Lapped) => {
                    return vstd::pervasive::unreached();
                },
                Err(TryRecvError::Empty) => {
                    if tries == 0 {
                        return Err(RecvError::Empty);
                    }
                    tries = tries - 1;
                },
            }
        }
    }
}

} // verus!
