//! The delivery guarantees of the protocol, stated and proved over the model.
//!
//! Every engine operation ensures well-formedness of the model, so each law
//! below holds of any queue a client can reach through the public interface.

use vstd::prelude::*;

use crate::model::{
    QueueModel, is_live, count_live, owed, group_ok, wf, has_live, can_accept,
    lemma_count_live_witness, lemma_owed_at_least,
};

verus! {

/// A group's receipts are exactly the stream between its subscription point
/// and its cursor: in publish order, with no gap and no duplicate.  For a
/// single broadcast reader this is the whole in-order delivery guarantee; for
/// a work-sharing group it is the group-wide one, each listed element having
/// gone to exactly one member at the claim that appended it.
pub proof fn lemma_group_receives_prefix<T>(m: QueueModel<T>, gid: int)
    requires
        wf(m),
        0 <= gid < m.groups.len(),
    ensures
        m.groups[gid].taken == m.stream.subrange(
            m.groups[gid].start as int,
            m.groups[gid].cursor as int,
        ),
{
    assert(group_ok(m, m.groups[gid]));
    assert(m.groups[gid].taken =~= m.stream.subrange(
        m.groups[gid].start as int,
        m.groups[gid].cursor as int,
    ));
}

/// A consumer group subscribed from the start that has kept pace with the
/// producers has received exactly the full sent sequence: nothing lost,
/// nothing duplicated, order preserved.  With one producer and one broadcast
/// reader this is the uncontended round trip; with several producers it says
/// the single reader sees every element of the interleaved stream once.
pub proof fn lemma_caught_up_group_received_everything<T>(m: QueueModel<T>, gid: int)
    requires
        wf(m),
        0 <= gid < m.groups.len(),
        m.groups[gid].start == 0,
        m.groups[gid].cursor == m.stream.len(),
    ensures
        m.groups[gid].taken == m.stream,
{
    lemma_group_receives_prefix(m, gid);
    assert(m.stream.subrange(0, m.stream.len() as int) =~= m.stream);
}

/// Work-sharing delivery partitions the stream: the group's receipts cover
/// the claimed positions one-to-one, so no element is handed to two members
/// and none is skipped, and the union of what the members hold is exactly
/// the sent prefix.
pub proof fn lemma_work_sharing_partition<T>(m: QueueModel<T>, gid: int)
    requires
        wf(m),
        0 <= gid < m.groups.len(),
    ensures
        m.groups[gid].taken.len() == m.groups[gid].cursor - m.groups[gid].start,
        forall|j: int| 0 <= j < m.groups[gid].taken.len()
            ==> m.groups[gid].taken[j] == m.stream[m.groups[gid].start + j],
{
    assert(group_ok(m, m.groups[gid]));
}

/// Once the last member of every consumer group has unsubscribed, a send can
/// only disconnect: the engine's send contract returns `Disconnected` exactly
/// when no live group remains, never `Full` and never success.
pub proof fn lemma_send_after_last_unsubscribe<T>(m: QueueModel<T>)
    requires
        forall|i: int| 0 <= i < m.groups.len() ==> !is_live(#[trigger] m.groups[i]),
    ensures
        !has_live(m),
        count_live(m.groups) == 0,
{
    if count_live(m.groups) > 0 {
        lemma_count_live_witness(m.groups);
    }
}

/// With capacity one the queue strictly alternates: a send is refused while
/// any live group still owes the element in the single slot, and accepted
/// again exactly when every live group has consumed it.  In particular the
/// cycle send, full receive, send can never deadlock and never lets a second
/// element in early.
pub proof fn lemma_capacity_one_alternates<T>(m: QueueModel<T>, gid: int)
    requires
        wf(m),
        m.capacity == 1,
        0 <= gid < m.groups.len(),
        is_live(m.groups[gid]),
    ensures
        m.groups[gid].cursor < m.stream.len() ==> !can_accept(m),
        (forall|i: int|
            0 <= i < m.groups.len() && is_live(#[trigger] m.groups[i])
                ==> m.groups[i].cursor == m.stream.len()) ==> can_accept(m),
{
    assert(group_ok(m, m.groups[gid]));
}

/// No live consumer group can ever be lapped: the slot-reuse guard keeps every
/// live cursor within one ring of the producers, so the slot a live group
/// expects next still holds the position it expects.  A producer that runs
/// more than a full ring ahead of a suspended live reader is refused with
/// `Full` instead; this is why a receive can never return a stale or wrong
/// value, and why the `Lapped` report is proved unreachable for live groups.
pub proof fn lemma_live_group_never_lapped<T>(m: QueueModel<T>, gid: int)
    requires
        wf(m),
        0 <= gid < m.groups.len(),
        is_live(m.groups[gid]),
    ensures
        m.stream.len() - m.groups[gid].cursor <= m.capacity,
{
    assert(group_ok(m, m.groups[gid]));
}

/// The pending counter of a freshly claimed position never undercounts: it
/// dominates each live group that has not passed the position, which is what
/// makes the reuse guard sound for every group at once.
pub proof fn lemma_counter_covers_every_lagging_group<T>(m: QueueModel<T>, gid: int, p: int)
    requires
        0 <= gid < m.groups.len(),
        is_live(m.groups[gid]),
        m.groups[gid].cursor <= p,
    ensures
        owed(m.groups, p) >= 1,
{
    lemma_owed_at_least(m.groups, gid, p);
}

} // verus!
