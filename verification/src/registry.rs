use vstd::prelude::*;

use crate::queue::EventQueue;
use crate::types::{EventV, MarketError, Payload, Role, Subscription, SubscriptionV};

verus! {

/// One live subscription together with its private event queue. The queue is
/// created with the subscription and discarded with it: unsubscribing drops
/// every pending event.
#[derive(Debug)]
pub struct SubEntry {
    pub sub: Subscription,
    pub queue: EventQueue,
}

#[verifier::ext_equal]
pub struct EntryV {
    pub sub: SubscriptionV,
    pub queue: Seq<EventV>,
}

impl View for SubEntry {
    type V = EntryV;

    open spec fn view(&self) -> EntryV {
        EntryV { sub: self.sub@, queue: self.queue@ }
    }
}

/// The live Demand/Offer subscriptions of this engine, each owned by the node
/// identity that registered it, each with its own event queue.
#[derive(Debug)]
pub struct SubscriptionRegistry {
    pub entries: Vec<SubEntry>,
    pub next_sub_id: u64,
}

impl View for SubscriptionRegistry {
    type V = Seq<EntryV>;

    open spec fn view(&self) -> Seq<EntryV> {
        self.entries@.map_values(|e: SubEntry| e@)
    }
}

impl SubscriptionRegistry {
    /// Subscription ids grow strictly along the vector (so they are unique
    /// and fresh ids never collide), and each queue is well-formed and tied
    /// to its own subscription.
    pub open spec fn wf(self) -> bool {
        &&& forall|i: int, j: int|
            0 <= i < j < self@.len() ==> self@[i].sub.id < self@[j].sub.id
        &&& forall|i: int| 0 <= i < self@.len() ==> (#[trigger] self@[i]).sub.id < self.next_sub_id
        &&& forall|i: int|
            0 <= i < self.entries@.len() ==> (#[trigger] self.entries@[i]).queue.sub_id
                == self.entries@[i].sub.id
        &&& forall|i: int| 0 <= i < self.entries@.len() ==> (#[trigger] self.entries@[i]).queue.wf()
    }

    pub open spec fn contains_id(self, id: u64) -> bool {
        exists|i: int| 0 <= i < self@.len() && self@[i].sub.id == id
    }

    /// The position of the entry carrying `id`; meaningful only when
    /// `contains_id(id)` holds (ids are unique under `wf`).
    pub open spec fn idx_of(self, id: u64) -> int {
        choose|i: int| 0 <= i < self@.len() && self@[i].sub.id == id
    }

    pub proof fn lemma_idx_of(self, id: u64)
        requires
            self.wf(),
            self.contains_id(id),
        ensures
            0 <= self.idx_of(id) < self@.len(),
            self@[self.idx_of(id)].sub.id == id,
            forall|i: int| 0 <= i < self@.len() && self@[i].sub.id == id ==> i == self.idx_of(id),
    {
        let w = self.idx_of(id);
        assert forall|i: int| 0 <= i < self@.len() && self@[i].sub.id == id implies i == w by {
            if i < w {
                assert(self@[i].sub.id < self@[w].sub.id);
            } else if w < i {
                assert(self@[w].sub.id < self@[i].sub.id);
            }
        }
    }

    pub fn new() -> (r: SubscriptionRegistry)
        ensures
            r.wf(),
            r@ == Seq::<EntryV>::empty(),
            r.next_sub_id == 0,
    {
        let r = SubscriptionRegistry { entries: Vec::new(), next_sub_id: 0 };
        proof {
            assert(r@ =~= Seq::<EntryV>::empty());
        }
        r
    }

    /// The position of the entry carrying `id`, if the id is live.
    pub fn find(&self, id: u64) -> (r: Option<usize>)
        requires
            self.wf(),
        ensures
            match r {
                Some(i) => i < self@.len() && self@[i as int].sub.id == id && i as int
                    == self.idx_of(id),
                None => !self.contains_id(id),
            },
    {
        let mut i: usize = 0;
        while i < self.entries.len()
            invariant
                self.wf(),
                0 <= i <= self@.len(),
                forall|k: int| 0 <= k < i ==> self@[k].sub.id != id,
            decreases self@.len() - i,
        {
            if self.entries[i].sub.id == id {
                proof {
                    assert(self@[i as int].sub.id == id);
                    self.lemma_idx_of(id);
                }
                return Some(i);
            }
            i = i + 1;
        }
        None
    }

    /// Registers a new subscription under a fresh id and gives it an empty
    /// event queue.
    pub fn subscribe(
        &mut self,
        payload: Payload,
        role: Role,
        identity: String,
        created: u64,
    ) -> (id: u64)
        requires
            old(self).wf(),
            old(self).next_sub_id < u64::MAX,
        ensures
            final(self).wf(),
            id == old(self).next_sub_id,
            final(self).next_sub_id == id + 1,
            final(self)@ == old(self)@.push(
                EntryV {
                    sub: SubscriptionV {
                        id,
                        node: identity@,
                        role,
                        payload: payload@,
                        created,
                    },
                    queue: Seq::<EventV>::empty(),
                },
            ),
    {
        let id = self.next_sub_id;
        let sub = Subscription { id, node: identity, role, payload, created };
        let queue = EventQueue::new(id);
        let ghost pre = self@;
        let ghost subv = sub@;
        self.entries.push(SubEntry { sub, queue });
        self.next_sub_id = id + 1;
        proof {
            assert(self@ =~= pre.push(EntryV { sub: subv, queue: Seq::<EventV>::empty() }));
        }
        id
    }

    /// Removes the subscription and discards its queue, making it immediately
    /// invisible to the matcher and to new queries. Fails with `NotFound` for
    /// an unknown id and with `Forbidden` when the caller does not own it.
    pub fn unsubscribe(&mut self, id: u64, identity: &String) -> (r: Result<(), MarketError>)
        requires
            old(self).wf(),
        ensures
            final(self).wf(),
            final(self).next_sub_id == old(self).next_sub_id,
            !old(self).contains_id(id) ==> r == Err::<(), MarketError>(MarketError::NotFound)
                && final(self)@ == old(self)@,
            old(self).contains_id(id) && old(self)@[old(self).idx_of(id)].sub.node != identity@
                ==> r == Err::<(), MarketError>(MarketError::Forbidden) && final(self)@ == old(
                self,
            )@,
            old(self).contains_id(id) && old(self)@[old(self).idx_of(id)].sub.node == identity@
                ==> r == Ok::<(), MarketError>(()) && final(self)@ == old(self)@.remove(
                old(self).idx_of(id),
            ) && !final(self).contains_id(id),
    {
        let found = self.find(id);
        match found {
            None => Err(MarketError::NotFound),
            Some(i) => {
                proof {
                    self.lemma_idx_of(id);
                }
                if self.entries[i].sub.node == *identity {
                    let ghost pre = self@;
                    self.entries.remove(i);
                    proof {
                        assert(self@ =~= pre.remove(i as int));
                        assert forall|k: int|
                            0 <= k < self@.len() implies #[trigger] self@[k].sub.id != id by {
                            if k < i {
                                assert(pre[k].sub.id < pre[i as int].sub.id);
                            } else {
                                assert(pre[i as int].sub.id < pre[k + 1].sub.id);
                            }
                        }
                    }
                    Ok(())
                } else {
                    Err(MarketError::Forbidden)
                }
            },
        }
    }

    /// A copy of the subscription record, or `NotFound`.
    pub fn get(&self, id: u64) -> (r: Result<Subscription, MarketError>)
        requires
            self.wf(),
        ensures
            self.contains_id(id) ==> (r matches Ok(s) && s@ == self@[self.idx_of(id)].sub),
            !self.contains_id(id) ==> r == Err::<Subscription, MarketError>(MarketError::NotFound),
    {
        match self.find(id) {
            Some(i) => Ok(self.entries[i].sub.clone()),
            None => Err(MarketError::NotFound),
        }
    }

    /// The subscriptions of one role, in registration order: the pool the
    /// matcher scans for candidates of the opposite role.
    pub open spec fn active_view(entries: Seq<EntryV>, role: Role) -> Seq<SubscriptionV>
        decreases entries.len(),
    {
        if entries.len() == 0 {
            Seq::<SubscriptionV>::empty()
        } else if entries.last().sub.role == role {
            Self::active_view(entries.drop_last(), role).push(entries.last().sub)
        } else {
            Self::active_view(entries.drop_last(), role)
        }
    }

    pub fn active(&self, role: Role) -> (r: Vec<Subscription>)
        requires
            self.wf(),
        ensures
            r@.map_values(|s: Subscription| s@) == Self::active_view(self@, role),
    {
        let mut r: Vec<Subscription> = Vec::new();
        let mut i: usize = 0;
        while i < self.entries.len()
            invariant
                self.wf(),
                0 <= i <= self@.len(),
                r@.map_values(|s: Subscription| s@) == Self::active_view(
                    self@.take(i as int),
                    role,
                ),
            decreases self@.len() - i,
        {
            let ghost pre = r@.map_values(|s: Subscription| s@);
            proof {
                assert(self@.take(i + 1).drop_last() =~= self@.take(i as int));
                assert(self@.take(i + 1).last() == self@[i as int]);
            }
            if self.entries[i].sub.role == role {
                r.push(self.entries[i].sub.clone());
                proof {
                    assert(r@.map_values(|s: Subscription| s@) =~= pre.push(self@[i as int].sub));
                }
            }
            i = i + 1;
        }
        proof {
            assert(self@.take(self@.len() as int) =~= self@);
        }
        r
    }
}

} // verus!
