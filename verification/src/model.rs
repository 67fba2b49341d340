//! The mathematical model of the queue.
//!
//! A queue is modelled by the full stream of values ever published, the ring
//! capacity, the count of live producer handles, and one record per consumer
//! group: its live-member count, its claim cursor, the position at which it
//! subscribed and the sequence of values it has taken so far.  The contracts
//! of every engine operation are stated over this model.

use vstd::prelude::*;

verus! {

/// One consumer group: a single broadcast reader, or a set of work-sharing
/// readers that share the claim cursor.  Retired groups (no live member) stay
/// in the registry with `members == 0`; their record is frozen.
pub ghost struct GroupModel<T> {
    /// Live member handles; zero means the group is retired.
    pub members: nat,
    /// The next position this group will claim.
    pub cursor: nat,
    /// The position published at subscription time: the group owes reads only
    /// from here on.
    pub start: nat,
    /// The values the group has taken so far, in claim order.
    pub taken: Seq<T>,
}

/// The whole queue: every value ever published plus the registry state.
pub ghost struct QueueModel<T> {
    /// All published values; position `p` holds `stream[p]`.
    pub stream: Seq<T>,
    /// Ring capacity: a producer can run at most this far ahead of the
    /// slowest live group.
    pub capacity: nat,
    /// Live producer handles; zero closes the stream for writes.
    pub producers: nat,
    /// The consumer groups, live and retired, in subscription order.
    pub groups: Seq<GroupModel<T>>,
}

/// A group still owes reads and blocks slot reuse.
pub open spec fn is_live<T>(g: GroupModel<T>) -> bool {
    g.members > 0
}

/// One if the group is live, zero otherwise.
pub open spec fn live_one<T>(g: GroupModel<T>) -> nat {
    if is_live(g) {
        1
    } else {
        0
    }
}

/// One if the group still owes a read of position `p`, zero otherwise.
pub open spec fn owes_one<T>(g: GroupModel<T>, p: int) -> nat {
    if is_live(g) && g.cursor <= p {
        1
    } else {
        0
    }
}

/// How many live groups still owe a read of position `p`.  This is the value
/// the per-slot pending counter tracks for the slot occupied by `p`.
pub open spec fn owed<T>(gs: Seq<GroupModel<T>>, p: int) -> nat
    decreases gs.len(),
{
    if gs.len() == 0 {
        0
    } else {
        owed(gs.drop_last(), p) + owes_one(gs.last(), p)
    }
}

/// How many groups are live.
pub open spec fn count_live<T>(gs: Seq<GroupModel<T>>) -> nat
    decreases gs.len(),
{
    if gs.len() == 0 {
        0
    } else {
        count_live(gs.drop_last()) + live_one(gs.last())
    }
}

/// Per-group well-formedness against the stream.
pub open spec fn group_ok<T>(m: QueueModel<T>, g: GroupModel<T>) -> bool {
    &&& g.start <= g.cursor <= m.stream.len()
    &&& g.taken.len() == g.cursor - g.start
    &&& forall|j: int| 0 <= j < g.taken.len() ==> g.taken[j] == m.stream[g.start + j]
    &&& is_live(g) ==> m.stream.len() <= g.cursor + m.capacity
}

/// Well-formedness of the whole model: every group reads a gapless,
/// duplicate-free window of the stream, and no live group has been left more
/// than one full ring behind the producers.
pub open spec fn wf<T>(m: QueueModel<T>) -> bool {
    &&& m.capacity >= 1
    &&& forall|i: int| 0 <= i < m.groups.len() ==> group_ok(m, #[trigger] m.groups[i])
}

/// At least one live consumer group remains; without one, sends disconnect.
pub open spec fn has_live<T>(m: QueueModel<T>) -> bool {
    exists|i: int| 0 <= i < m.groups.len() && is_live(#[trigger] m.groups[i])
}

/// The slot-reuse guard is open: every live group has finished the occupant
/// that the next publish would overwrite, so a send succeeds right now.
pub open spec fn can_accept<T>(m: QueueModel<T>) -> bool {
    forall|i: int|
        0 <= i < m.groups.len() && is_live(#[trigger] m.groups[i])
            ==> m.stream.len() < m.groups[i].cursor + m.capacity
}

/// The oldest position whose slot has not been reused yet.
pub open spec fn window_start<T>(m: QueueModel<T>) -> int {
    if m.stream.len() >= m.capacity {
        m.stream.len() - m.capacity
    } else {
        0
    }
}

/// Replacing one group record shifts `owed` by the difference of the two
/// records' contributions, at every position.
pub proof fn lemma_owed_update<T>(gs: Seq<GroupModel<T>>, i: int, g: GroupModel<T>, p: int)
    requires
        0 <= i < gs.len(),
    ensures
        owed(gs.update(i, g), p) + owes_one(gs[i], p) == owed(gs, p) + owes_one(g, p),
    decreases gs.len(),
{
    let gs2 = gs.update(i, g);
    if i == gs.len() - 1 {
        assert(gs2.drop_last() =~= gs.drop_last());
    } else {
        assert(gs2.drop_last() =~= gs.drop_last().update(i, g));
        lemma_owed_update(gs.drop_last(), i, g, p);
    }
}

/// Replacing one group record shifts the live count by the difference of the
/// two records' liveness.
pub proof fn lemma_count_live_update<T>(gs: Seq<GroupModel<T>>, i: int, g: GroupModel<T>)
    requires
        0 <= i < gs.len(),
    ensures
        count_live(gs.update(i, g)) + live_one(gs[i]) == count_live(gs) + live_one(g),
    decreases gs.len(),
{
    let gs2 = gs.update(i, g);
    if i == gs.len() - 1 {
        assert(gs2.drop_last() =~= gs.drop_last());
    } else {
        assert(gs2.drop_last() =~= gs.drop_last().update(i, g));
        lemma_count_live_update(gs.drop_last(), i, g);
    }
}

/// A newly subscribed group adds its own contribution and nothing else.
pub proof fn lemma_owed_push<T>(gs: Seq<GroupModel<T>>, g: GroupModel<T>, p: int)
    ensures
        owed(gs.push(g), p) == owed(gs, p) + owes_one(g, p),
{
    assert(gs.push(g).drop_last() =~= gs);
}

/// A newly subscribed group raises the live count by its own liveness.
pub proof fn lemma_count_live_push<T>(gs: Seq<GroupModel<T>>, g: GroupModel<T>)
    ensures
        count_live(gs.push(g)) == count_live(gs) + live_one(g),
{
    assert(gs.push(g).drop_last() =~= gs);
}

/// `owed` dominates the contribution of any single group.
pub proof fn lemma_owed_at_least<T>(gs: Seq<GroupModel<T>>, i: int, p: int)
    requires
        0 <= i < gs.len(),
    ensures
        owed(gs, p) >= owes_one(gs[i], p),
    decreases gs.len(),
{
    if i < gs.len() - 1 {
        lemma_owed_at_least(gs.drop_last(), i, p);
    }
}

/// A positive `owed` names a live group that still owes the read.
pub proof fn lemma_owed_witness<T>(gs: Seq<GroupModel<T>>, p: int)
    requires
        owed(gs, p) > 0,
    ensures
        exists|i: int| 0 <= i < gs.len() && is_live(#[trigger] gs[i]) && gs[i].cursor <= p,
    decreases gs.len(),
{
    if owes_one(gs.last(), p) > 0 {
        assert(is_live(gs[gs.len() - 1]) && gs[gs.len() - 1].cursor <= p);
    } else {
        lemma_owed_witness(gs.drop_last(), p);
        let i = choose|i: int|
            0 <= i < gs.drop_last().len() && is_live(#[trigger] gs.drop_last()[i])
                && gs.drop_last()[i].cursor <= p;
        assert(is_live(gs[i]) && gs[i].cursor <= p);
    }
}

/// When every live cursor is at or below `p`, the owed count is exactly the
/// live-group count: this is what initialises a fresh slot's pending counter.
pub proof fn lemma_owed_full<T>(gs: Seq<GroupModel<T>>, p: int)
    requires
        forall|i: int| 0 <= i < gs.len() && is_live(#[trigger] gs[i]) ==> gs[i].cursor <= p,
    ensures
        owed(gs, p) == count_live(gs),
    decreases gs.len(),
{
    if gs.len() > 0 {
        assert(forall|i: int|
            0 <= i < gs.drop_last().len() && is_live(#[trigger] gs.drop_last()[i])
                ==> gs.drop_last()[i].cursor <= p);
        lemma_owed_full(gs.drop_last(), p);
        assert(gs[gs.len() - 1] == gs.last());
    }
}

/// A positive live count names a live group.
pub proof fn lemma_count_live_witness<T>(gs: Seq<GroupModel<T>>)
    requires
        count_live(gs) > 0,
    ensures
        exists|i: int| 0 <= i < gs.len() && is_live(#[trigger] gs[i]),
    decreases gs.len(),
{
    if live_one(gs.last()) > 0 {
        assert(is_live(gs[gs.len() - 1]));
    } else {
        lemma_count_live_witness(gs.drop_last());
        let i = choose|i: int| 0 <= i < gs.drop_last().len() && is_live(#[trigger] gs.drop_last()[i]);
        assert(is_live(gs[i]));
    }
}

/// The live count dominates the liveness of any single group.
pub proof fn lemma_count_live_at_least<T>(gs: Seq<GroupModel<T>>, i: int)
    requires
        0 <= i < gs.len(),
    ensures
        count_live(gs) >= live_one(gs[i]),
    decreases gs.len(),
{
    if i < gs.len() - 1 {
        lemma_count_live_at_least(gs.drop_last(), i);
    }
}

/// No more groups are live than exist.
pub proof fn lemma_count_live_bound<T>(gs: Seq<GroupModel<T>>)
    ensures
        count_live(gs) <= gs.len(),
    decreases gs.len(),
{
    if gs.len() > 0 {
        lemma_count_live_bound(gs.drop_last());
    }
}

} // verus!
