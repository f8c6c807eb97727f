use vstd::prelude::*;

use vstd::seq_lib::lemma_multiset_commutative;

use crate::engine::{MarketEngine, QueryDecision};
use crate::queue::seq_bound_of;
use crate::store::ProposalStore;
use crate::types::{EventV, MarketError, ProposalId, ProposalV};

verus! {

/// A delivery never hands out more events than the caller asked for, and a
/// request it accepts is within the cap.
pub proof fn lemma_batch_within_limit(
    e: MarketEngine,
    sub_id: u64,
    max_events: i32,
    waiting: bool,
    timeout_expired: bool,
)
    ensures
        e.query_decision(sub_id, max_events, waiting, timeout_expired) matches QueryDecision::Deliver(
            k,
        ) ==> 0 <= k <= max_events && max_events <= 100,
{
}

/// A query whose timeout has already elapsed — in particular one called
/// with a non-positive timeout, for which the hosting runtime passes
/// `timeout_expired` at once — never suspends: its step is never `Wait`.
pub proof fn lemma_expired_query_never_waits(
    e: MarketEngine,
    sub_id: u64,
    max_events: i32,
    waiting: bool,
)
    ensures
        !(e.query_decision(sub_id, max_events, waiting, true) is Wait),
{
}

/// A query on an unknown subscription id fails with `NotFound`, whatever
/// the timeout.
pub proof fn lemma_unknown_id_fails(
    e: MarketEngine,
    sub_id: u64,
    max_events: i32,
    timeout_expired: bool,
)
    requires
        MarketEngine::max_events_ok(max_events),
        !e.registry.contains_id(sub_id),
    ensures
        e.query_decision(sub_id, max_events, false, timeout_expired) == QueryDecision::Fail(
            MarketError::NotFound,
        ),
{
}

/// An out-of-range event count is refused with the requested count and the
/// cap, before anything else is looked at.
pub proof fn lemma_invalid_max_events(
    e: MarketEngine,
    sub_id: u64,
    max_events: i32,
    waiting: bool,
    timeout_expired: bool,
)
    requires
        !(1 <= max_events <= 100),
    ensures
        e.query_decision(sub_id, max_events, waiting, timeout_expired) == QueryDecision::Fail(
            MarketError::InvalidMaxEvents(max_events, 100),
        ),
{
}

/// Removing a subscription wakes every caller still blocked on it: however
/// much of their timeout remains, their next step fails with
/// `Unsubscribed`, never with a silent timeout.
pub proof fn lemma_unsubscribe_wakes_waiter(
    pre: MarketEngine,
    post: MarketEngine,
    id: u64,
    max_events: i32,
    timeout_expired: bool,
)
    requires
        pre.wf(),
        pre.registry.contains_id(id),
        post.registry@ == pre.registry@.remove(pre.registry.idx_of(id)),
        MarketEngine::max_events_ok(max_events),
    ensures
        post.query_decision(id, max_events, true, timeout_expired) == QueryDecision::Fail(
            MarketError::Unsubscribed(id),
        ),
{
    pre.registry.lemma_idx_of(id);
    let gone = pre.registry.idx_of(id);
    if post.registry.contains_id(id) {
        let w = choose|w: int|
            0 <= w < post.registry@.len() && post.registry@[w].sub.id == id;
        if w < gone {
            assert(post.registry@[w] == pre.registry@[w]);
        } else {
            assert(post.registry@[w] == pre.registry@[w + 1]);
        }
        assert(false);
    }
}

/// Exactly-once delivery under concurrency: per-subscription serialization
/// makes two concurrent queries two successive drains of one queue, here a
/// queue `q` with strictly increasing production stamps (every live queue
/// is such, by the engine invariant). The first drain hands out the first
/// `k1` events, the second `k2` of what remains: no event is in both
/// batches, together they are exactly the front of the queue, and when they
/// empty it their union is everything produced since the last drain — no
/// loss, no duplication.
pub proof fn lemma_exactly_once(q: Seq<EventV>, k1: int, k2: int)
    requires
        forall|i: int, j: int| 0 <= i < j < q.len() ==> q[i].seq < q[j].seq,
        0 <= k1,
        0 <= k2,
        k1 + k2 <= q.len(),
    ensures
        forall|ev: EventV| q.take(k1).contains(ev) ==> !q.skip(k1).take(k2).contains(ev),
        q.take(k1).to_multiset().add(q.skip(k1).take(k2).to_multiset()) == q.take(
            k1 + k2,
        ).to_multiset(),
        k1 + k2 == q.len() ==> q.take(k1).to_multiset().add(q.skip(k1).to_multiset())
            == q.to_multiset(),
{
    assert(q.take(k1) + q.skip(k1).take(k2) =~= q.take(k1 + k2));
    lemma_multiset_commutative(q.take(k1), q.skip(k1).take(k2));
    assert forall|ev: EventV| q.take(k1).contains(ev) implies !q.skip(k1).take(k2).contains(ev) by {
        let i = choose|i: int| 0 <= i < q.take(k1).len() && q.take(k1)[i] == ev;
        if q.skip(k1).take(k2).contains(ev) {
            let j = choose|j: int|
                0 <= j < q.skip(k1).take(k2).len() && q.skip(k1).take(k2)[j] == ev;
            assert(q[i] == ev);
            assert(q[k1 + j] == ev);
            assert(q[i].seq < q[k1 + j].seq);
        }
    }
    assert(q.take(k1) + q.skip(k1) =~= q);
    lemma_multiset_commutative(q.take(k1), q.skip(k1));
}

/// No redelivery, even after new events arrive: what one delivery handed
/// out is stamped below the queue's bound, later-produced events are
/// stamped at or above it, so no later delivery from the evolved queue can
/// contain any earlier-delivered event.
pub proof fn lemma_no_redelivery(q: Seq<EventV>, k: int, appended: Seq<EventV>, k2: int)
    requires
        forall|i: int, j: int| 0 <= i < j < q.len() ==> q[i].seq < q[j].seq,
        0 <= k <= q.len(),
        forall|i: int| 0 <= i < appended.len() ==> (#[trigger] appended[i]).seq >= seq_bound_of(q),
        0 <= k2 <= q.skip(k).len() + appended.len(),
    ensures
        forall|ev: EventV|
            q.take(k).contains(ev) ==> !(q.skip(k) + appended).take(k2).contains(ev),
{
    let q2 = (q.skip(k) + appended).take(k2);
    assert forall|ev: EventV| q.take(k).contains(ev) implies !q2.contains(ev) by {
        let i = choose|i: int| 0 <= i < q.take(k).len() && q.take(k)[i] == ev;
        assert(q[i] == ev);
        if q2.contains(ev) {
            let j = choose|j: int| 0 <= j < q2.len() && q2[j] == ev;
            if j < q.skip(k).len() {
                assert(q[k + j] == ev);
                assert(q[i].seq < q[k + j].seq);
            } else {
                let a = j - q.skip(k).len();
                assert(appended[a] == ev);
                assert(q[i].seq < q[q.len() - 1].seq + 1);
                assert(appended[a].seq >= seq_bound_of(q));
            }
        }
    }
}

/// Countering a Rejected, Approved or Expired round is refused with
/// `InvalidState`, whoever asks and whatever they send.
pub proof fn lemma_counter_terminal_refused(
    s: ProposalStore,
    sub_id: u64,
    id: ProposalId,
    identity: Seq<char>,
)
    requires
        s.wf(),
        s.contains_pid(id),
        s@[s.idx_of(id)].sub_id == sub_id,
        s@[s.idx_of(id)].state.is_terminal(),
    ensures
        s.counter_error(sub_id, id, identity) == Some(MarketError::InvalidState),
{
    s.lemma_idx_of(id);
}

/// Inbound mirroring is idempotent: once a Draft is mirrored, delivering
/// the same Draft again (same id, same predecessor) is classified a replay,
/// which `receive_proposal`'s contract swallows as a success that changes
/// nothing.
pub proof fn lemma_replay_is_noop(
    pre: MarketEngine,
    post: MarketEngine,
    id: ProposalId,
    prev: ProposalId,
    mirrored: ProposalV,
)
    requires
        pre.wf(),
        post.wf(),
        post.store@ == pre.store@.push(mirrored),
        mirrored.id == id,
        mirrored.prev == Some(prev),
        pre.store.contains_pid(prev),
    ensures
        post.receive_error(id, prev) is None,
        post.receive_is_replay(id, prev),
{
    let w = choose|w: int| 0 <= w < pre.store@.len() && pre.store@[w].id == prev;
    assert(post.store@[w].id == prev);
    assert(post.store@[post.store@.len() - 1].id == id);
    post.store.lemma_idx_of(id);
}

/// A mirrored Draft resolves on the receiving side: a stored Draft's
/// previous-round pointer always names a round stored on the same
/// subscription and under the same role tag, so the counterpart's Draft,
/// mirrored under the translated id, is linked through local records back
/// towards the chain's Initial round.
pub proof fn lemma_mirrored_draft_links(e: MarketEngine, id: ProposalId, prev: ProposalId)
    requires
        e.wf(),
        e.store.contains_pid(id),
        e.store@[e.store.idx_of(id)].prev == Some(prev),
    ensures
        e.store.contains_pid(prev),
        e.store@[e.store.idx_of(prev)].sub_id == e.store@[e.store.idx_of(id)].sub_id,
        e.store@[e.store.idx_of(prev)].id.role == id.role,
{
    e.store.lemma_idx_of(id);
    let i = e.store.idx_of(id);
    assert(ProposalStore::parent_before(e.store@, i));
    let j = choose|j: int|
        0 <= j < i && (#[trigger] e.store@[j]).id == e.store@[i].prev.unwrap() && e.store@[j].sub_id
            == e.store@[i].sub_id && e.store@[j].id.role == e.store@[i].id.role;
    assert(e.store@[j].id == prev);
    e.store.lemma_idx_of(prev);
}

/// A draft is its own chain's head: the state machine admits no cycle, so a
/// round never answers itself.
pub proof fn lemma_no_self_counter(s: ProposalStore, i: int)
    requires
        s.wf(),
        0 <= i < s@.len(),
    ensures
        s@[i].prev != Some(s@[i].id),
{
    if s@[i].prev == Some(s@[i].id) {
        assert(ProposalStore::parent_before(s@, i));
        let j = choose|j: int|
            0 <= j < i && (#[trigger] s@[j]).id == s@[i].prev.unwrap() && s@[j].sub_id
                == s@[i].sub_id && s@[j].id.role == s@[i].id.role;
        assert(s@[j].id != s@[i].id);
    }
}

/// A terminal state is final: the transition rules refuse every further
/// terminal transition on a round that has already reached one.
pub proof fn lemma_terminal_is_final(
    e: MarketEngine,
    id: ProposalId,
    identity: Option<Seq<char>>,
)
    requires
        e.wf(),
        e.store.contains_pid(id),
        e.store@[e.store.idx_of(id)].state.is_terminal(),
    ensures
        e.terminal_error(id, identity) == Some(MarketError::InvalidState),
        e.store.counter_error(e.store@[e.store.idx_of(id)].sub_id, id, identity.unwrap())
            == Some(MarketError::InvalidState),
{
    e.store.lemma_idx_of(id);
}

} // verus!
