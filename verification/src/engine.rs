use vstd::prelude::*;

use crate::queue::seq_bound_of;
use crate::registry::{EntryV, SubscriptionRegistry};
use crate::shuffle::shuffle_events;
use crate::store::ProposalStore;
use crate::types::{
    Event, EventV, MarketError, Payload, Proposal, ProposalId, ProposalState, Role, Subscription,
};

verus! {

/// What one step of a (possibly blocking) query decides: either a batch of
/// events to hand to the caller, or the instruction to keep waiting. The
/// hosting runtime sleeps on `Wait` and calls again when an event arrives,
/// the deadline passes or the subscription goes away.
#[derive(Debug)]
pub enum QueryOutcome {
    Events(Vec<Event>),
    Wait,
}

/// The specification-level verdict of one query step: what the engine is
/// owed to do. `Deliver(k)` hands out the first `k` queued events.
pub enum QueryDecision {
    Deliver(int),
    Wait,
    Fail(MarketError),
}

/// A counterpart-addressed copy of a freshly created Draft, ready to travel
/// over the transport to the engine hosting the other side of the
/// negotiation. Handing it to the transport is the caller's job; delivering
/// it calls `receive_proposal` on the receiving engine.
#[derive(Debug)]
pub struct DraftTransfer {
    /// The Draft's id under the receiving side's role tag.
    pub id: ProposalId,
    /// The answered round's id under the receiving side's role tag.
    pub prev: ProposalId,
    pub issuer: String,
    pub payload: Payload,
    pub created: u64,
}

impl Clone for DraftTransfer {
    fn clone(&self) -> (res: Self)
        ensures
            res.id == self.id,
            res.prev == self.prev,
            res.issuer@ == self.issuer@,
            res.payload@ == self.payload@,
            res.created == self.created,
    {
        DraftTransfer {
            id: self.id,
            prev: self.prev,
            issuer: self.issuer.clone(),
            payload: self.payload.clone(),
            created: self.created,
        }
    }
}

/// The negotiation engine of one market node: the live subscriptions with
/// their event queues, this node's proposal records, and the production
/// stamp counter for events.
#[derive(Debug)]
pub struct MarketEngine {
    pub registry: SubscriptionRegistry,
    pub store: ProposalStore,
    pub next_seq: u64,
}

impl MarketEngine {
    /// Both components are well-formed and every buffered event was stamped
    /// below the production counter, so fresh stamps keep queues strictly
    /// ordered.
    pub open spec fn wf(self) -> bool {
        &&& self.registry.wf()
        &&& self.store.wf()
        &&& forall|i: int|
            0 <= i < self.registry@.len() ==> seq_bound_of(
                (#[trigger] self.registry@[i]).queue,
            ) <= self.next_seq
    }

    /// Nothing observable changed between two engine values.
    pub open spec fn same_state(a: MarketEngine, b: MarketEngine) -> bool {
        &&& a.registry@ == b.registry@
        &&& a.store@ == b.store@
        &&& a.next_seq == b.next_seq
        &&& a.registry.next_sub_id == b.registry.next_sub_id
        &&& a.store.next_correlation == b.store.next_correlation
    }

    pub open spec fn max_events_ok(max_events: i32) -> bool {
        1 <= max_events <= 100
    }

    pub fn new() -> (r: MarketEngine)
        ensures
            r.wf(),
            r.registry@ == Seq::<EntryV>::empty(),
            r.store@ == Seq::<crate::types::ProposalV>::empty(),
            r.next_seq == 0,
            r.registry.next_sub_id == 0,
            r.store.next_correlation == 0,
    {
        let r = MarketEngine {
            registry: SubscriptionRegistry::new(),
            store: ProposalStore::new(),
            next_seq: 0,
        };
        proof {
            assert(r.registry@.len() == 0);
        }
        r
    }

    /// A copy of the subscription record, or `NotFound`.
    pub fn get_subscription(&self, id: u64) -> (r: Result<Subscription, MarketError>)
        requires
            self.wf(),
        ensures
            self.registry.contains_id(id) ==> (r matches Ok(s) && s@ == self.registry@[
                self.registry.idx_of(id)
            ].sub),
            !self.registry.contains_id(id) ==> r == Err::<Subscription, MarketError>(
                MarketError::NotFound,
            ),
    {
        self.registry.get(id)
    }

    /// A copy of the proposal record, or `NotFound`.
    pub fn get_proposal(&self, id: ProposalId) -> (r: Result<Proposal, MarketError>)
        requires
            self.wf(),
        ensures
            self.store.contains_pid(id) ==> (r matches Ok(p) && p@ == self.store@[
                self.store.idx_of(id)
            ]),
            !self.store.contains_pid(id) ==> r == Err::<Proposal, MarketError>(
                MarketError::NotFound,
            ),
    {
        self.store.get(id)
    }

    /// The live subscriptions of one role, in registration order.
    pub fn active(&self, role: Role) -> (r: Vec<Subscription>)
        requires
            self.wf(),
        ensures
            r@.map_values(|s: Subscription| s@) == SubscriptionRegistry::active_view(
                self.registry@,
                role,
            ),
    {
        self.registry.active(role)
    }

    /// The ordered lineage of the round `id`, Initial first.
    pub fn chain(&self, id: ProposalId) -> (r: Result<Vec<Proposal>, MarketError>)
        requires
            self.wf(),
        ensures
            !self.store.contains_pid(id) ==> r == Err::<Vec<Proposal>, MarketError>(
                MarketError::NotFound,
            ),
            self.store.contains_pid(id) ==> (r matches Ok(v) && {
                let w = v@.map_values(|p: Proposal| p@);
                &&& w.len() >= 1
                &&& w[w.len() - 1] == self.store@[self.store.idx_of(id)]
                &&& w[0].prev is None
                &&& forall|k: int|
                    0 <= k < w.len() ==> self.store.contains_pid((#[trigger] w[k]).id) && w[k]
                        == self.store@[self.store.idx_of(w[k].id)]
                &&& forall|k: int| 1 <= k < w.len() ==> (#[trigger] w[k]).prev == Some(
                    w[k - 1].id,
                )
            }),
    {
        self.store.chain(id)
    }

    /// Removes the subscription: it is immediately invisible to the matcher
    /// and to new queries, its pending events are discarded, and any caller
    /// still blocked on it is owed an `Unsubscribed` wake on its next step.
    pub fn unsubscribe(&mut self, id: u64, identity: &String) -> (r: Result<(), MarketError>)
        requires
            old(self).wf(),
        ensures
            final(self).wf(),
            final(self).store@ == old(self).store@,
            final(self).next_seq == old(self).next_seq,
            final(self).store.next_correlation == old(self).store.next_correlation,
            final(self).registry.next_sub_id == old(self).registry.next_sub_id,
            !old(self).registry.contains_id(id) ==> r == Err::<(), MarketError>(
                MarketError::NotFound,
            ) && final(self).registry@ == old(self).registry@,
            old(self).registry.contains_id(id) && old(self).registry@[old(self).registry.idx_of(
                id,
            )].sub.node != identity@ ==> r == Err::<(), MarketError>(MarketError::Forbidden)
                && final(self).registry@ == old(self).registry@,
            old(self).registry.contains_id(id) && old(self).registry@[old(self).registry.idx_of(
                id,
            )].sub.node == identity@ ==> r == Ok::<(), MarketError>(()) && final(self).registry@
                == old(self).registry@.remove(old(self).registry.idx_of(id)),
            r is Ok ==> !final(self).registry.contains_id(id),
    {
        let ghost pre = self.registry@;
        proof {
            if old(self).registry.contains_id(id) {
                old(self).registry.lemma_idx_of(id);
            }
        }
        let r = self.registry.unsubscribe(id, identity);
        proof {
            assert forall|i: int|
                0 <= i < self.registry@.len() implies seq_bound_of(
                (#[trigger] self.registry@[i]).queue,
            ) <= self.next_seq by {
                if r is Ok {
                    let gone = old(self).registry.idx_of(id);
                    if i < gone {
                        assert(self.registry@[i] == pre[i]);
                    } else {
                        assert(self.registry@[i] == pre[i + 1]);
                    }
                } else {
                    assert(self.registry@[i] == pre[i]);
                }
            }
        }
        r
    }

    /// Appends a proposal snapshot to the owning subscription's queue,
    /// stamped with the next production number. Producers (the matcher and
    /// the inbound mirror path) call this; a blocked caller is then owed a
    /// wake by the hosting runtime.
    pub fn notify(&mut self, sub_id: u64, proposal: Proposal, created: u64) -> (r: Result<
        (),
        MarketError,
    >)
        requires
            old(self).wf(),
            old(self).next_seq < u64::MAX,
        ensures
            final(self).wf(),
            final(self).store@ == old(self).store@,
            final(self).store.next_correlation == old(self).store.next_correlation,
            final(self).registry.next_sub_id == old(self).registry.next_sub_id,
            !old(self).registry.contains_id(sub_id) ==> ({
                &&& r == Err::<(), MarketError>(MarketError::NotFound)
                &&& final(self).registry@ == old(self).registry@
                &&& final(self).next_seq == old(self).next_seq
            }),
            old(self).registry.contains_id(sub_id) ==> ({
                let i = old(self).registry.idx_of(sub_id);
                let ev = EventV { sub_id, seq: old(self).next_seq, proposal: proposal@, created };
                &&& r == Ok::<(), MarketError>(())
                &&& final(self).next_seq == old(self).next_seq + 1
                &&& final(self).registry@ == old(self).registry@.update(
                    i,
                    EntryV {
                        sub: old(self).registry@[i].sub,
                        queue: old(self).registry@[i].queue.push(ev),
                    },
                )
            }),
    {
        let i = match self.registry.find(sub_id) {
            None => {
                return Err(MarketError::NotFound);
            },
            Some(i) => i,
        };
        let seq = self.next_seq;
        self.next_seq = seq + 1;
        let ghost prereg = self.registry@;
        let ghost preentries = self.registry.entries@;
        let ev = Event { sub_id, seq, proposal, created };
        let ghost evv = ev@;
        proof {
            assert(prereg[i as int].queue == preentries[i as int].queue@);
            assert(seq_bound_of(prereg[i as int].queue) <= seq);
            assert(preentries[i as int].queue.sub_id == preentries[i as int].sub.id);
            assert(prereg[i as int].sub.id == sub_id);
        }
        let entry = &mut self.registry.entries[i];
        entry.queue.push(ev);
        proof {
            let post = self.registry.entries@;
            assert(self.registry@ =~= prereg.update(
                i as int,
                EntryV { sub: prereg[i as int].sub, queue: prereg[i as int].queue.push(evv) },
            ));
            assert forall|k: int|
                0 <= k < self.registry@.len() implies seq_bound_of(
                (#[trigger] self.registry@[k]).queue,
            ) <= self.next_seq by {
                if k != i as int {
                    assert(self.registry@[k] == prereg[k]);
                } else {
                    let q = prereg[i as int].queue.push(evv);
                    assert(q[q.len() - 1].seq == seq);
                }
            }
            assert(self.registry.wf()) by {
                assert forall|k: int|
                    0 <= k < post.len() implies (#[trigger] post[k]).queue.wf() && post[
                    k].queue.sub_id == post[k].sub.id by {
                    if k != i as int {
                        assert(post[k] == preentries[k]);
                    }
                }
                assert forall|k: int|
                    0 <= k < self.registry@.len() implies (#[trigger] self.registry@[k]).sub
                    == prereg[k].sub by {}
            }
        }
        Ok(())
    }

    /// What one step of `query` is owed to do, as a function of the engine
    /// state and the call's inputs: fail, keep the caller waiting, or hand
    /// out the first `k` queued events. This is the single definition the
    /// delivery laws and the executable step are both held to.
    pub open spec fn query_decision(
        self,
        sub_id: u64,
        max_events: i32,
        waiting: bool,
        timeout_expired: bool,
    ) -> QueryDecision {
        if !Self::max_events_ok(max_events) {
            QueryDecision::Fail(MarketError::InvalidMaxEvents(max_events, 100))
        } else if !self.registry.contains_id(sub_id) {
            QueryDecision::Fail(
                if waiting {
                    MarketError::Unsubscribed(sub_id)
                } else {
                    MarketError::NotFound
                },
            )
        } else {
            let q = self.registry@[self.registry.idx_of(sub_id)].queue;
            if q.len() >= max_events || timeout_expired {
                QueryDecision::Deliver(
                    if max_events <= q.len() {
                        max_events as int
                    } else {
                        q.len() as int
                    },
                )
            } else {
                QueryDecision::Wait
            }
        }
    }

    /// One atomic step of `query`. The hosting runtime turns this into the
    /// blocking call the interface promises: it passes `waiting = false` on
    /// the first step, sleeps whenever `Wait` comes back, and passes
    /// `timeout_expired = true` once the caller's deadline has passed (for a
    /// non-positive timeout: immediately, so such a query never suspends).
    ///
    /// A batch is handed out atomically: what is returned is removed from
    /// the queue in the same step, in production order, then shuffled so
    /// delivery order carries no positional bias. An unknown id fails with
    /// `NotFound` on a first step and with `Unsubscribed` on a later one,
    /// since then the subscription was removed mid-wait.
    pub fn query_step(
        &mut self,
        sub_id: u64,
        max_events: i32,
        waiting: bool,
        timeout_expired: bool,
    ) -> (r: Result<QueryOutcome, MarketError>)
        requires
            old(self).wf(),
        ensures
            final(self).wf(),
            old(self).query_decision(sub_id, max_events, waiting, timeout_expired) matches QueryDecision::Fail(e)
                ==> r == Err::<QueryOutcome, MarketError>(e) && Self::same_state(
                *old(self),
                *final(self),
            ),
            old(self).query_decision(sub_id, max_events, waiting, timeout_expired) is Wait ==> (
            r matches Ok(o) && o is Wait) && Self::same_state(*old(self), *final(self)),
            old(self).query_decision(sub_id, max_events, waiting, timeout_expired) matches QueryDecision::Deliver(k)
                ==> (r matches Ok(o) && o matches QueryOutcome::Events(v) && {
                let i = old(self).registry.idx_of(sub_id);
                let q = old(self).registry@[i].queue;
                &&& v@.len() == k
                &&& v@.map_values(|e: Event| e@).to_multiset() == q.take(k).to_multiset()
                &&& final(self).registry@ == old(self).registry@.update(
                    i,
                    EntryV { sub: old(self).registry@[i].sub, queue: q.skip(k) },
                )
                &&& final(self).store@ == old(self).store@
                &&& final(self).next_seq == old(self).next_seq
                &&& final(self).registry.next_sub_id == old(self).registry.next_sub_id
                &&& final(self).store.next_correlation == old(self).store.next_correlation
            }),
    {
        if max_events < 1 || max_events > 100 {
            return Err(MarketError::InvalidMaxEvents(max_events, 100));
        }
        let i = match self.registry.find(sub_id) {
            None => {
                if waiting {
                    return Err(MarketError::Unsubscribed(sub_id));
                } else {
                    return Err(MarketError::NotFound);
                }
            },
            Some(i) => i,
        };
        let qlen = self.registry.entries[i].queue.len();
        if qlen < max_events as usize && !timeout_expired {
            return Ok(QueryOutcome::Wait);
        }
        let ghost prereg = self.registry@;
        let ghost preentries = self.registry.entries@;
        let entry = &mut self.registry.entries[i];
        let mut out = entry.queue.drain(max_events as usize);
        proof {
            assert(preentries[i as int].queue.wf());
        }
        shuffle_events(&mut out);
        proof {
            let post = self.registry.entries@;
            let q = prereg[i as int].queue;
            let k = if max_events <= q.len() {
                max_events as int
            } else {
                q.len() as int
            };
            assert(self.registry@ =~= prereg.update(
                i as int,
                EntryV { sub: prereg[i as int].sub, queue: q.skip(k) },
            ));
            assert(self.registry.wf()) by {
                assert forall|j: int|
                    0 <= j < post.len() implies (#[trigger] post[j]).queue.wf() && post[
                    j].queue.sub_id == post[j].sub.id by {
                    if j != i as int {
                        assert(post[j] == preentries[j]);
                    }
                }
                assert forall|j: int|
                    0 <= j < self.registry@.len() implies (#[trigger] self.registry@[j]).sub
                    == prereg[j].sub by {}
            }
            assert forall|j: int|
                0 <= j < self.registry@.len() implies seq_bound_of(
                (#[trigger] self.registry@[j]).queue,
            ) <= self.next_seq by {
                if j != i as int {
                    assert(self.registry@[j] == prereg[j]);
                } else {
                    assert(self.registry@[j].queue == q.skip(k));
                    if q.skip(k).len() > 0 {
                        assert(q.skip(k)[q.skip(k).len() - 1] == q[q.len() - 1]);
                        assert(seq_bound_of(q) <= self.next_seq);
                    }
                }
            }
        }
        Ok(QueryOutcome::Events(out))
    }

    /// Why a counter-proposal must be refused, or `None` when it is owed to
    /// succeed: the subscription must exist and belong to the caller, and the
    /// store's own turn-taking and state rules must allow the counter.
    pub open spec fn counter_outcome(
        self,
        sub_id: u64,
        prev_id: ProposalId,
        identity: Seq<char>,
    ) -> Option<MarketError> {
        if !self.registry.contains_id(sub_id) {
            Some(MarketError::NotFound)
        } else if self.registry@[self.registry.idx_of(sub_id)].sub.node != identity {
            Some(MarketError::Forbidden)
        } else {
            self.store.counter_error(sub_id, prev_id, identity)
        }
    }

    /// Issues a counter-proposal: persists a local Draft answering `prev_id`
    /// and returns, beside the Draft's id, its counterpart-addressed copy.
    /// Handing that copy to the transport is the caller's job; this call's
    /// success only guarantees local persistence. A synchronous transport
    /// failure is surfaced by the caller as `TransportError`.
    pub fn counter_proposal(
        &mut self,
        sub_id: u64,
        prev_id: ProposalId,
        payload: Payload,
        identity: &String,
        created: u64,
    ) -> (r: Result<(ProposalId, DraftTransfer), MarketError>)
        requires
            old(self).wf(),
            old(self).store.next_correlation < u64::MAX,
        ensures
            final(self).wf(),
            old(self).counter_outcome(sub_id, prev_id, identity@) matches Some(e) ==> r == Err::<
                (ProposalId, DraftTransfer),
                MarketError,
            >(e) && Self::same_state(*old(self), *final(self)),
            old(self).counter_outcome(sub_id, prev_id, identity@) is None ==> (r matches Ok(ok)
                && {
                let prev = old(self).store@[old(self).store.idx_of(prev_id)];
                let c = old(self).store.next_correlation;
                let draft_id = ProposalId { role: prev.id.role, correlation: c };
                &&& ok.0 == draft_id
                &&& ok.0 != prev_id
                &&& final(self).store@ == old(self).store@.push(
                    ProposalStore::draft_of(prev, c, identity@, payload@, created),
                )
                &&& final(self).store.next_correlation == c + 1
                &&& final(self).registry@ == old(self).registry@
                &&& final(self).next_seq == old(self).next_seq
                &&& final(self).registry.next_sub_id == old(self).registry.next_sub_id
                &&& ok.1.id == ProposalId {
                    role: prev.id.role.opposite_spec(),
                    correlation: c,
                }
                &&& ok.1.prev == ProposalId {
                    role: prev.id.role.opposite_spec(),
                    correlation: prev_id.correlation,
                }
                &&& ok.1.issuer@ == identity@
                &&& ok.1.payload@ == payload@
                &&& ok.1.created == created
            }),
    {
        let i = match self.registry.find(sub_id) {
            None => {
                return Err(MarketError::NotFound);
            },
            Some(i) => i,
        };
        if !(self.registry.entries[i].sub.node == *identity) {
            proof {
                assert(self.registry@[i as int].sub.node != identity@);
            }
            return Err(MarketError::Forbidden);
        }
        proof {
            assert(self.registry@[i as int].sub.node == identity@);
        }
        let transfer_payload = payload.clone();
        let draft_id = match self.store.create_counter(sub_id, prev_id, payload, identity, created)
            {
            Err(e) => {
                return Err(e);
            },
            Ok(id) => id,
        };
        proof {
            old(self).store.lemma_idx_of(prev_id);
            assert(old(self).store@[old(self).store.idx_of(prev_id)].id.correlation
                < old(self).store.next_correlation);
        }
        let opp = draft_id.role.opposite();
        let transfer = DraftTransfer {
            id: draft_id.translate(opp),
            prev: prev_id.translate(opp),
            issuer: identity.clone(),
            payload: transfer_payload,
            created,
        };
        Ok((draft_id, transfer))
    }

    /// Why an inbound Draft delivery must be refused, is a replay, or is
    /// fresh. A replay (the Draft is already mirrored with the same
    /// predecessor) is swallowed as success, as at-least-once transports
    /// demand.
    pub open spec fn receive_is_replay(self, id: ProposalId, prev: ProposalId) -> bool {
        self.store.contains_pid(id) && self.store@[self.store.idx_of(id)].prev == Some(prev)
    }

    pub open spec fn receive_error(self, id: ProposalId, prev: ProposalId) -> Option<
        MarketError,
    > {
        if !self.store.contains_pid(prev) {
            Some(MarketError::NotFound)
        } else if self.store.contains_pid(id) {
            if self.store@[self.store.idx_of(id)].prev == Some(prev) {
                None
            } else {
                Some(MarketError::InvalidState)
            }
        } else if id.role != prev.role {
            Some(MarketError::InvalidState)
        } else {
            None
        }
    }

    /// The inbound mirror path: the transport delivered a counterpart's
    /// Draft. Mirrors it into the local store under the translated id, links
    /// it to the local chain, and queues an event for the local subscription
    /// that owns the negotiation (if it is still live; an unsubscribed side
    /// simply gets no event). Duplicate deliveries are swallowed: replaying
    /// the same Draft with the same predecessor changes nothing and
    /// succeeds.
    pub fn receive_proposal(&mut self, t: &DraftTransfer) -> (r: Result<(), MarketError>)
        requires
            old(self).wf(),
            old(self).next_seq < u64::MAX,
            t.id.correlation < u64::MAX,
        ensures
            final(self).wf(),
            old(self).receive_error(t.id, t.prev) matches Some(e) ==> r == Err::<(), MarketError>(
                e,
            ) && Self::same_state(*old(self), *final(self)),
            old(self).receive_error(t.id, t.prev) is None && old(self).receive_is_replay(
                t.id,
                t.prev,
            ) ==> r == Ok::<(), MarketError>(()) && Self::same_state(*old(self), *final(self)),
            old(self).receive_error(t.id, t.prev) is None && !old(self).receive_is_replay(
                t.id,
                t.prev,
            ) ==> r == Ok::<(), MarketError>(()) && ({
                let prev = old(self).store@[old(self).store.idx_of(t.prev)];
                let mirrored = crate::types::ProposalV {
                    id: t.id,
                    prev: Some(t.prev),
                    issuer: t.issuer@,
                    state: ProposalState::Draft,
                    payload: t.payload@,
                    sub_id: prev.sub_id,
                    created: t.created,
                };
                &&& final(self).store@ == old(self).store@.push(mirrored)
                &&& final(self).receive_is_replay(t.id, t.prev)
                &&& final(self).registry.next_sub_id == old(self).registry.next_sub_id
                &&& (old(self).registry.contains_id(prev.sub_id) ==> ({
                    let i = old(self).registry.idx_of(prev.sub_id);
                    let ev = EventV {
                        sub_id: prev.sub_id,
                        seq: old(self).next_seq,
                        proposal: mirrored,
                        created: t.created,
                    };
                    &&& final(self).next_seq == old(self).next_seq + 1
                    &&& final(self).registry@ == old(self).registry@.update(
                        i,
                        EntryV {
                            sub: old(self).registry@[i].sub,
                            queue: old(self).registry@[i].queue.push(ev),
                        },
                    )
                }))
                &&& (!old(self).registry.contains_id(prev.sub_id) ==> final(self).registry@ == old(
                    self,
                ).registry@ && final(self).next_seq == old(self).next_seq)
            }),
    {
        let pi = match self.store.find(t.prev) {
            None => {
                return Err(MarketError::NotFound);
            },
            Some(pi) => pi,
        };
        match self.store.find(t.id) {
            Some(j) => {
                let dup = match &self.store.proposals[j].prev {
                    Some(p) => *p == t.prev,
                    None => false,
                };
                proof {
                    assert(self.store@[j as int].prev == self.store.proposals@[j as int].prev);
                }
                if dup {
                    return Ok(());
                } else {
                    return Err(MarketError::InvalidState);
                }
            },
            None => {},
        };
        if !(t.id.role == self.store.proposals[pi].id.role) {
            proof {
                assert(self.store@[pi as int].id == t.prev);
            }
            return Err(MarketError::InvalidState);
        }
        let owner_sub = self.store.proposals[pi].sub_id;
        if self.store.next_correlation <= t.id.correlation {
            let ghost presto = self.store@;
            self.store.next_correlation = t.id.correlation + 1;
            proof {
                assert(self.store@ =~= presto);
            }
        }
        let mirrored = Proposal {
            id: t.id,
            prev: Some(t.prev),
            issuer: t.issuer.clone(),
            state: ProposalState::Draft,
            payload: t.payload.clone(),
            sub_id: owner_sub,
            created: t.created,
        };
        let snapshot = mirrored.clone();
        proof {
            assert(self.store@[pi as int].id == t.prev);
            assert(self.store@[pi as int].sub_id == owner_sub);
            assert(self.store@[pi as int].id.role == t.id.role);
        }
        self.store.insert(mirrored);
        proof {
            self.store.lemma_idx_of(t.id);
            assert(self.store@[self.store@.len() - 1].id == t.id);
        }
        match self.notify(owner_sub, snapshot, t.created) {
            Ok(()) => Ok(()),
            Err(_) => Ok(()),
        }
    }

    /// Why a terminal transition must be refused, or `None` when it is owed
    /// to succeed. With an identity, the caller must own the subscription the
    /// local copy belongs to (a copy whose subscription is gone can no longer
    /// be authorized and reports `NotFound`).
    pub open spec fn terminal_error(self, id: ProposalId, identity: Option<Seq<char>>) -> Option<
        MarketError,
    > {
        if !self.store.contains_pid(id) {
            Some(MarketError::NotFound)
        } else if self.store@[self.store.idx_of(id)].state.is_terminal() {
            Some(MarketError::InvalidState)
        } else if identity is Some {
            let sub_id = self.store@[self.store.idx_of(id)].sub_id;
            if !self.registry.contains_id(sub_id) {
                Some(MarketError::NotFound)
            } else if self.registry@[self.registry.idx_of(sub_id)].sub.node != identity.unwrap() {
                Some(MarketError::Forbidden)
            } else {
                None
            }
        } else {
            None
        }
    }

    /// What a successful terminal transition leaves behind: only the state
    /// field of the one record changes.
    pub open spec fn terminal_effect(
        pre: MarketEngine,
        post: MarketEngine,
        id: ProposalId,
        st: ProposalState,
    ) -> bool {
        &&& post.store@ == pre.store@.update(
            pre.store.idx_of(id),
            crate::types::ProposalV { state: st, ..pre.store@[pre.store.idx_of(id)] },
        )
        &&& post.registry@ == pre.registry@
        &&& post.next_seq == pre.next_seq
        &&& post.registry.next_sub_id == pre.registry.next_sub_id
        &&& post.store.next_correlation == pre.store.next_correlation
    }

    fn transition(&mut self, id: ProposalId, st: ProposalState, identity: Option<&String>) -> (r:
        Result<(), MarketError>)
        requires
            old(self).wf(),
            st.is_terminal(),
        ensures
            final(self).wf(),
            ({
                let idv = match identity {
                    Some(s) => Some(s@),
                    None => None,
                };
                &&& (old(self).terminal_error(id, idv) matches Some(e) ==> r == Err::<
                    (),
                    MarketError,
                >(e) && Self::same_state(*old(self), *final(self)))
                &&& (old(self).terminal_error(id, idv) is None ==> r == Ok::<(), MarketError>(())
                    && Self::terminal_effect(*old(self), *final(self), id, st))
            }),
    {
        let i = match self.store.find(id) {
            None => {
                return Err(MarketError::NotFound);
            },
            Some(i) => i,
        };
        if self.store.proposals[i].state.terminal() {
            proof {
                assert(self.store@[i as int].state.is_terminal());
            }
            return Err(MarketError::InvalidState);
        }
        proof {
            assert(!self.store@[i as int].state.is_terminal());
        }
        if let Some(ident) = identity {
            let sub_id = self.store.proposals[i].sub_id;
            proof {
                assert(self.store@[i as int].sub_id == sub_id);
            }
            let e = match self.registry.find(sub_id) {
                None => {
                    return Err(MarketError::NotFound);
                },
                Some(e) => e,
            };
            if !(self.registry.entries[e].sub.node == *ident) {
                proof {
                    assert(self.registry@[e as int].sub.node != ident@);
                }
                return Err(MarketError::Forbidden);
            }
            proof {
                assert(self.registry@[e as int].sub.node == ident@);
            }
        }
        let ok = self.store.set_state(id, st);
        proof {
            assert(ok);
        }
        Ok(())
    }

    /// Accepts the round `id`: `Initial` or `Draft` becomes `Approved`,
    /// closing the negotiation on this side. The caller must own the
    /// subscription the local copy belongs to.
    pub fn approve_proposal(&mut self, id: ProposalId, identity: &String) -> (r: Result<
        (),
        MarketError,
    >)
        requires
            old(self).wf(),
        ensures
            final(self).wf(),
            old(self).terminal_error(id, Some(identity@)) matches Some(e) ==> r == Err::<
                (),
                MarketError,
            >(e) && Self::same_state(*old(self), *final(self)),
            old(self).terminal_error(id, Some(identity@)) is None ==> r == Ok::<(), MarketError>(
                (),
            ) && Self::terminal_effect(*old(self), *final(self), id, ProposalState::Approved),
    {
        self.transition(id, ProposalState::Approved, Some(identity))
    }

    /// Declines the round `id`: `Initial` or `Draft` becomes `Rejected`.
    /// The caller must own the subscription the local copy belongs to.
    pub fn reject_proposal(&mut self, id: ProposalId, identity: &String) -> (r: Result<
        (),
        MarketError,
    >)
        requires
            old(self).wf(),
        ensures
            final(self).wf(),
            old(self).terminal_error(id, Some(identity@)) matches Some(e) ==> r == Err::<
                (),
                MarketError,
            >(e) && Self::same_state(*old(self), *final(self)),
            old(self).terminal_error(id, Some(identity@)) is None ==> r == Ok::<(), MarketError>(
                (),
            ) && Self::terminal_effect(*old(self), *final(self), id, ProposalState::Rejected),
    {
        self.transition(id, ProposalState::Rejected, Some(identity))
    }

    /// Times the round `id` out: `Initial` or `Draft` becomes `Expired`.
    /// Driven by the timer collaborator, so no caller identity is checked.
    pub fn expire_proposal(&mut self, id: ProposalId) -> (r: Result<(), MarketError>)
        requires
            old(self).wf(),
        ensures
            final(self).wf(),
            old(self).terminal_error(id, None) matches Some(e) ==> r == Err::<(), MarketError>(e)
                && Self::same_state(*old(self), *final(self)),
            old(self).terminal_error(id, None) is None ==> r == Ok::<(), MarketError>(())
                && Self::terminal_effect(*old(self), *final(self), id, ProposalState::Expired),
    {
        self.transition(id, ProposalState::Expired, None)
    }

    /// A pool entry the matcher pairs with a new subscription: it has the
    /// opposite role and the mutual constraint match holds.
    pub open spec fn is_candidate(e: EntryV, payload: crate::types::PayloadV, role: Role) -> bool {
        e.sub.role == role.opposite_spec() && crate::types::payloads_match(e.sub.payload, payload)
    }

    /// How many pool entries the matcher pairs with a new subscription.
    pub open spec fn match_count(
        entries: Seq<EntryV>,
        payload: crate::types::PayloadV,
        role: Role,
    ) -> int
        decreases entries.len(),
    {
        if entries.len() == 0 {
            0
        } else {
            Self::match_count(entries.drop_last(), payload, role) + if Self::is_candidate(
                entries.last(),
                payload,
                role,
            ) {
                1int
            } else {
                0int
            }
        }
    }

    pub proof fn lemma_match_count_bound(
        entries: Seq<EntryV>,
        payload: crate::types::PayloadV,
        role: Role,
    )
        ensures
            0 <= Self::match_count(entries, payload, role) <= entries.len(),
        decreases entries.len(),
    {
        if entries.len() > 0 {
            Self::lemma_match_count_bound(entries.drop_last(), payload, role);
        }
    }

    /// The shape of every event the matcher queues: a snapshot of an Initial
    /// proposal without a predecessor, owned by the queue's subscription.
    pub open spec fn initial_event_shape(ev: EventV, sub: u64, role: Role) -> bool {
        &&& ev.sub_id == sub
        &&& ev.proposal.state == ProposalState::Initial
        &&& ev.proposal.prev is None
        &&& ev.proposal.sub_id == sub
        &&& ev.proposal.id.role == role
    }

    /// Registers a new subscription and runs the matcher: every live
    /// subscription of the opposite role whose constraints match mutually is
    /// paired with the new one. Each pairing creates one Initial proposal
    /// per side, sharing a fresh correlation number, and queues one event on
    /// each side's queue; each side's copy carries the counterpart's payload
    /// and names the counterpart as issuer. Unrelated subscriptions are
    /// untouched.
    pub fn subscribe(
        &mut self,
        payload: Payload,
        role: Role,
        identity: String,
        created: u64,
    ) -> (r: u64)
        requires
            old(self).wf(),
            old(self).registry.next_sub_id < u64::MAX,
            old(self).next_seq as int + 2 * old(self).registry@.len() <= u64::MAX,
            old(self).store.next_correlation as int + old(self).registry@.len() <= u64::MAX,
        ensures
            final(self).wf(),
            r == old(self).registry.next_sub_id,
            final(self).registry.next_sub_id == r + 1,
            final(self).registry@.len() == old(self).registry@.len() + 1,
            final(self).registry.contains_id(r),
            ({
                let n = old(self).registry@.len() as int;
                let pv = payload@;
                let mc = Self::match_count(old(self).registry@, pv, role);
                &&& final(self).registry@[n].sub == crate::types::SubscriptionV {
                    id: r,
                    node: identity@,
                    role,
                    payload: pv,
                    created,
                }
                &&& final(self).registry@[n].queue.len() == mc
                &&& forall|k: int|
                    0 <= k < mc ==> Self::initial_event_shape(
                        #[trigger] final(self).registry@[n].queue[k],
                        r,
                        role,
                    )
                &&& forall|idx: int|
                    0 <= idx < n ==> (#[trigger] final(self).registry@[idx]).sub == old(
                        self,
                    ).registry@[idx].sub
                &&& forall|idx: int|
                    0 <= idx < n ==> (#[trigger] final(self).registry@[idx]).queue.len() == old(
                        self,
                    ).registry@[idx].queue.len() + if Self::is_candidate(
                        old(self).registry@[idx],
                        pv,
                        role,
                    ) {
                        1int
                    } else {
                        0int
                    }
                &&& forall|idx: int|
                    0 <= idx < n ==> (#[trigger] final(self).registry@[idx]).queue.take(
                        old(self).registry@[idx].queue.len() as int,
                    ) == old(self).registry@[idx].queue
                &&& forall|idx: int|
                    0 <= idx < n && Self::is_candidate(old(self).registry@[idx], pv, role) ==> ({
                        let ev = (#[trigger] final(self).registry@[idx]).queue.last();
                        &&& Self::initial_event_shape(
                            ev,
                            old(self).registry@[idx].sub.id,
                            role.opposite_spec(),
                        )
                        &&& ev.proposal.payload == pv
                        &&& ev.proposal.issuer == identity@
                        &&& ev.created == created
                        &&& ev.proposal.id.correlation == old(self).store.next_correlation
                            + Self::match_count(old(self).registry@.take(idx), pv, role)
                    })
                &&& forall|k: int|
                    0 <= k < mc ==> (#[trigger] final(self).registry@[n].queue[
                        k
                    ]).proposal.id.correlation == old(self).store.next_correlation + k
                &&& forall|k: int|
                    0 <= k < mc ==> (#[trigger] final(self).registry@[n].queue[k]).created
                        == created
                &&& forall|k: int|
                    0 <= k < mc ==> exists|idx: int|
                        0 <= idx < n && Self::is_candidate(old(self).registry@[idx], pv, role)
                            && (#[trigger] final(self).registry@[n].queue[k]).proposal.payload
                            == old(self).registry@[idx].sub.payload && final(self).registry@[
                            n
                        ].queue[k].proposal.issuer == old(self).registry@[idx].sub.node
                &&& final(self).store@.len() == old(self).store@.len() + 2 * mc
                &&& final(self).store@.take(old(self).store@.len() as int) == old(self).store@
                &&& forall|m: int|
                    old(self).store@.len() <= m < final(self).store@.len() ==> ((
                    #[trigger] final(self).store@[m]).state == ProposalState::Initial
                        && (final(self).store@[m]).prev is None
                        && (final(self).store@[m]).id.correlation == old(
                        self,
                    ).store.next_correlation + (m - old(self).store@.len()) / 2)
                &&& final(self).next_seq == old(self).next_seq + 2 * mc
                &&& final(self).store.next_correlation == old(self).store.next_correlation + mc
            }),
    {
        let ghost pre_entries = self.registry@;
        let ghost pre_store = self.store@;
        let ghost pre_seq = self.next_seq;
        let ghost pre_corr = self.store.next_correlation;
        let ghost identityv = identity@;
        let ghost pv = payload@;
        let opp = role.opposite();
        let my_node = identity.clone();
        let my_payload = payload.clone();
        let n = self.registry.entries.len();
        proof {
            assert(n as int == pre_entries.len());
        }
        let r = self.registry.subscribe(payload, role, identity, created);
        proof {
            assert(self.registry@[n as int].sub == crate::types::SubscriptionV {
                id: r,
                node: identityv,
                role,
                payload: pv,
                created,
            });
            assert forall|i: int|
                0 <= i < self.registry@.len() implies seq_bound_of(
                (#[trigger] self.registry@[i]).queue,
            ) <= self.next_seq by {
                if i < n {
                    assert(self.registry@[i] == pre_entries[i]);
                }
            }
            assert(pre_entries.take(0) =~= Seq::<EntryV>::empty());
        }
        let mut j: usize = 0;
        while j < n
            invariant
                self.wf(),
                n as int == pre_entries.len(),
                0 <= j <= n,
                opp == role.opposite_spec(),
                my_node@ == identityv,
                my_payload@ == pv,
                self.registry.next_sub_id == r + 1,
                r < u64::MAX,
                self.registry@.len() == n + 1,
                self.registry@[n as int].sub == (crate::types::SubscriptionV {
                    id: r,
                    node: identityv,
                    role,
                    payload: pv,
                    created,
                }),
                forall|idx: int|
                    0 <= idx < n ==> (#[trigger] self.registry@[idx]).sub == pre_entries[idx].sub,
                self.registry@[n as int].queue.len() == Self::match_count(
                    pre_entries.take(j as int),
                    pv,
                    role,
                ),
                forall|k: int|
                    0 <= k < self.registry@[n as int].queue.len() ==> Self::initial_event_shape(
                        #[trigger] self.registry@[n as int].queue[k],
                        r,
                        role,
                    ),
                forall|idx: int|
                    0 <= idx < n ==> (#[trigger] self.registry@[idx]).queue.len()
                        == pre_entries[idx].queue.len() + if idx < j && Self::is_candidate(
                        pre_entries[idx],
                        pv,
                        role,
                    ) {
                        1int
                    } else {
                        0int
                    },
                forall|idx: int|
                    0 <= idx < n ==> (#[trigger] self.registry@[idx]).queue.take(
                        pre_entries[idx].queue.len() as int,
                    ) == pre_entries[idx].queue,
                forall|idx: int|
                    0 <= idx < j && Self::is_candidate(pre_entries[idx], pv, role) ==> ({
                        let ev = (#[trigger] self.registry@[idx]).queue.last();
                        &&& Self::initial_event_shape(
                            ev,
                            pre_entries[idx].sub.id,
                            role.opposite_spec(),
                        )
                        &&& ev.proposal.payload == pv
                        &&& ev.proposal.issuer == identityv
                        &&& ev.created == created
                        &&& ev.proposal.id.correlation == pre_corr + Self::match_count(
                            pre_entries.take(idx),
                            pv,
                            role,
                        )
                    }),
                forall|k: int|
                    0 <= k < self.registry@[n as int].queue.len() ==> (#[trigger] self.registry@[
                        n as int
                    ].queue[k]).proposal.id.correlation == pre_corr + k,
                forall|k: int|
                    0 <= k < self.registry@[n as int].queue.len() ==> (#[trigger] self.registry@[
                        n as int
                    ].queue[k]).created == created,
                forall|k: int|
                    0 <= k < self.registry@[n as int].queue.len() ==> exists|idx: int|
                        0 <= idx < n && Self::is_candidate(pre_entries[idx], pv, role) && (
                        #[trigger] self.registry@[n as int].queue[k]).proposal.payload
                            == pre_entries[idx].sub.payload && self.registry@[n as int].queue[
                            k
                        ].proposal.issuer == pre_entries[idx].sub.node,
                self.store@.len() == pre_store.len() + 2 * Self::match_count(
                    pre_entries.take(j as int),
                    pv,
                    role,
                ),
                self.store@.take(pre_store.len() as int) == pre_store,
                forall|m: int|
                    pre_store.len() <= m < self.store@.len() ==> (#[trigger] self.store@[m]).state
                        == ProposalState::Initial && self.store@[m].prev is None
                        && self.store@[m].id.correlation == pre_corr + (m - pre_store.len()) / 2,
                self.next_seq == pre_seq + 2 * Self::match_count(
                    pre_entries.take(j as int),
                    pv,
                    role,
                ),
                self.store.next_correlation == pre_corr + Self::match_count(
                    pre_entries.take(j as int),
                    pv,
                    role,
                ),
                pre_seq as int + 2 * n <= u64::MAX,
                pre_corr as int + n <= u64::MAX,
            decreases n - j,
        {
            let ghost mcj = Self::match_count(pre_entries.take(j as int), pv, role);
            proof {
                Self::lemma_match_count_bound(pre_entries.take(j as int), pv, role);
                assert(pre_entries.take(j as int).len() == j as int);
                assert(pre_entries.take(j + 1).drop_last() =~= pre_entries.take(j as int));
                assert(pre_entries.take(j + 1).last() == pre_entries[j as int]);
            }
            let mut matched = false;
            if self.registry.entries[j].sub.role == opp {
                let cp = self.registry.entries[j].sub.payload.clone();
                matched = crate::types::payload_matches(&cp, &my_payload);
            }
            proof {
                assert(self.registry@[j as int].sub == pre_entries[j as int].sub);
                assert(matched == Self::is_candidate(pre_entries[j as int], pv, role));
            }
            if matched {
                let cand_id = self.registry.entries[j].sub.id;
                let cand_node = self.registry.entries[j].sub.node.clone();
                let cand_payload = self.registry.entries[j].sub.payload.clone();
                let (pa_ev, pb_ev) = self.store.create_initial(
                    role,
                    r,
                    my_node.clone(),
                    my_payload.clone(),
                    cand_id,
                    cand_node,
                    cand_payload,
                    created,
                );
                proof {
                    assert(self.registry@[j as int].sub.id == cand_id);
                    assert(self.registry.contains_id(cand_id));
                    self.registry.lemma_idx_of(cand_id);
                    assert(self.registry.idx_of(cand_id) == j as int);
                    assert(self.registry@[n as int].sub.id == r);
                    assert(self.registry.contains_id(r));
                }
                let ghost before_b = self.registry@;
                match self.notify(cand_id, pb_ev, created) {
                    Ok(()) => {},
                    Err(_) => {
                        proof {
                            assert(false);
                        }
                    },
                }
                proof {
                    assert(self.registry@[n as int].sub.id == r);
                    assert(self.registry.contains_id(r));
                    self.registry.lemma_idx_of(r);
                    assert(self.registry.idx_of(r) == n as int);
                }
                match self.notify(r, pa_ev, created) {
                    Ok(()) => {},
                    Err(_) => {
                        proof {
                            assert(false);
                        }
                    },
                }
                proof {
                    assert(pa_ev@.payload == pre_entries[j as int].sub.payload);
                    assert(pa_ev@.issuer == pre_entries[j as int].sub.node);
                    assert(pa_ev@.id.correlation == pre_corr + mcj);
                    assert(pb_ev@.payload == pv);
                    assert(pb_ev@.issuer == identityv);
                    assert(pb_ev@.id.correlation == pre_corr + mcj);
                    let qj = before_b[j as int].queue;
                    assert(self.registry@[j as int].queue == qj.push(
                        self.registry@[j as int].queue.last(),
                    ));
                    assert(self.registry@[j as int].queue.take(
                        pre_entries[j as int].queue.len() as int,
                    ) =~= pre_entries[j as int].queue);
                    assert forall|idx: int|
                        0 <= idx < n implies (#[trigger] self.registry@[idx]).queue.take(
                        pre_entries[idx].queue.len() as int,
                    ) == pre_entries[idx].queue by {
                        if idx != j as int {
                            assert(self.registry@[idx].queue == before_b[idx].queue);
                        }
                    }
                    assert(self.registry@[n as int].queue.take(mcj as int)
                        =~= before_b[n as int].queue);
                    let newq = self.registry@[n as int].queue;
                    assert(newq[mcj as int].proposal == pa_ev@);
                    assert forall|k: int| 0 <= k < newq.len() implies exists|idx: int|
                        0 <= idx < n && Self::is_candidate(pre_entries[idx], pv, role) && (
                        #[trigger] newq[k]).proposal.payload == pre_entries[idx].sub.payload
                            && newq[k].proposal.issuer == pre_entries[idx].sub.node by {
                        if k < mcj {
                            assert(newq[k] == before_b[n as int].queue[k]);
                        } else {
                            assert(Self::is_candidate(pre_entries[j as int], pv, role));
                            assert(newq[k].proposal.payload == pre_entries[j as int].sub.payload
                                && newq[k].proposal.issuer == pre_entries[j as int].sub.node);
                        }
                    }
                }
            }
            j = j + 1;
        }
        proof {
            assert(pre_entries.take(n as int) =~= pre_entries);
        }
        r
    }
}

} // verus!
