use vstd::prelude::*;

use crate::types::{
    MarketError, Payload, Proposal, ProposalId, ProposalState, ProposalV, Role,
};

verus! {

/// This side's record of every proposal, with its lineage. Correlation
/// numbers are allocated from `next_correlation`, so every locally created
/// round gets an id no stored round carries.
#[derive(Debug)]
pub struct ProposalStore {
    pub proposals: Vec<Proposal>,
    pub next_correlation: u64,
}

impl View for ProposalStore {
    type V = Seq<ProposalV>;

    open spec fn view(&self) -> Seq<ProposalV> {
        self.proposals@.map_values(|p: Proposal| p@)
    }
}

impl ProposalStore {
    /// Ids are unique; every correlation number is below the allocator; every
    /// countered round points back to a round stored earlier, on the same
    /// subscription and with the same role tag, so each lineage is an acyclic
    /// chain ending in a record without a predecessor; and only a countered
    /// round can be a Draft.
    pub open spec fn parent_before(s: Seq<ProposalV>, i: int) -> bool {
        exists|j: int|
            0 <= j < i && (#[trigger] s[j]).id == s[i].prev.unwrap() && s[j].sub_id == s[i].sub_id
                && s[j].id.role == s[i].id.role
    }

    pub open spec fn wf(self) -> bool {
        &&& forall|i: int, j: int| 0 <= i < j < self@.len() ==> self@[i].id != self@[j].id
        &&& forall|i: int|
            0 <= i < self@.len() ==> (#[trigger] self@[i]).id.correlation < self.next_correlation
        &&& forall|i: int|
            0 <= i < self@.len() && (#[trigger] self@[i]).prev is Some ==> Self::parent_before(
                self@,
                i,
            )
        &&& forall|i: int|
            0 <= i < self@.len() && (#[trigger] self@[i]).prev is None ==> self@[i].state
                != ProposalState::Draft
    }

    pub open spec fn contains_pid(self, id: ProposalId) -> bool {
        exists|i: int| 0 <= i < self@.len() && self@[i].id == id
    }

    /// The position of the record carrying `id`; meaningful only when
    /// `contains_pid(id)` holds (ids are unique under `wf`).
    pub open spec fn idx_of(self, id: ProposalId) -> int {
        choose|i: int| 0 <= i < self@.len() && self@[i].id == id
    }

    pub proof fn lemma_idx_of(self, id: ProposalId)
        requires
            self.wf(),
            self.contains_pid(id),
        ensures
            0 <= self.idx_of(id) < self@.len(),
            self@[self.idx_of(id)].id == id,
            forall|i: int| 0 <= i < self@.len() && self@[i].id == id ==> i == self.idx_of(id),
    {
        let w = self.idx_of(id);
        assert forall|i: int| 0 <= i < self@.len() && self@[i].id == id implies i == w by {
            if i != w {
                if i < w {
                    assert(self@[i].id != self@[w].id);
                } else {
                    assert(self@[w].id != self@[i].id);
                }
            }
        }
    }

    /// Whether some stored round already answers `id`: a superseded round may
    /// not be countered again, which keeps each lineage a chain, not a tree.
    pub open spec fn superseded(self, id: ProposalId) -> bool {
        exists|i: int| 0 <= i < self@.len() && self@[i].prev == Some(id)
    }

    pub fn new() -> (r: ProposalStore)
        ensures
            r.wf(),
            r@ == Seq::<ProposalV>::empty(),
            r.next_correlation == 0,
    {
        let r = ProposalStore { proposals: Vec::new(), next_correlation: 0 };
        proof {
            assert(r@ =~= Seq::<ProposalV>::empty());
        }
        r
    }

    /// The position of the record carrying `id`, if it is stored.
    pub fn find(&self, id: ProposalId) -> (r: Option<usize>)
        requires
            self.wf(),
        ensures
            match r {
                Some(i) => i < self@.len() && self@[i as int].id == id && i as int == self.idx_of(
                    id,
                ),
                None => !self.contains_pid(id),
            },
    {
        let mut i: usize = 0;
        while i < self.proposals.len()
            invariant
                self.wf(),
                0 <= i <= self@.len(),
                forall|k: int| 0 <= k < i ==> self@[k].id != id,
            decreases self@.len() - i,
        {
            if self.proposals[i].id == id {
                proof {
                    assert(self@[i as int].id == id);
                    self.lemma_idx_of(id);
                }
                return Some(i);
            }
            i = i + 1;
        }
        None
    }

    /// Whether some stored round already answers `id`.
    pub fn is_superseded(&self, id: ProposalId) -> (r: bool)
        requires
            self.wf(),
        ensures
            r == self.superseded(id),
    {
        let mut i: usize = 0;
        while i < self.proposals.len()
            invariant
                self.wf(),
                0 <= i <= self@.len(),
                forall|k: int| 0 <= k < i ==> self@[k].prev != Some(id),
            decreases self@.len() - i,
        {
            let found = match &self.proposals[i].prev {
                Some(p) => *p == id,
                None => false,
            };
            if found {
                proof {
                    assert(self@[i as int].prev == Some(id));
                }
                return true;
            }
            i = i + 1;
        }
        false
    }

    /// A copy of the record carrying `id`, or `NotFound`.
    pub fn get(&self, id: ProposalId) -> (r: Result<Proposal, MarketError>)
        requires
            self.wf(),
        ensures
            self.contains_pid(id) ==> (r matches Ok(p) && p@ == self@[self.idx_of(id)]),
            !self.contains_pid(id) ==> r == Err::<Proposal, MarketError>(MarketError::NotFound),
    {
        match self.find(id) {
            Some(i) => Ok(self.proposals[i].clone()),
            None => Err(MarketError::NotFound),
        }
    }

    /// Takes the next unused correlation number.
    pub fn alloc_correlation(&mut self) -> (c: u64)
        requires
            old(self).wf(),
            old(self).next_correlation < u64::MAX,
        ensures
            final(self).wf(),
            c == old(self).next_correlation,
            final(self).next_correlation == c + 1,
            final(self)@ == old(self)@,
            !old(self).contains_pid(ProposalId { role: Role::Requestor, correlation: c }),
            !old(self).contains_pid(ProposalId { role: Role::Provider, correlation: c }),
    {
        let c = self.next_correlation;
        self.next_correlation = c + 1;
        c
    }

    /// Stores a record whose id is fresh and whose predecessor, if any, is
    /// already stored on the same subscription and side.
    pub fn insert(&mut self, p: Proposal)
        requires
            old(self).wf(),
            !old(self).contains_pid(p.id),
            p.id.correlation < old(self).next_correlation,
            p.prev is Some ==> exists|j: int|
                0 <= j < old(self)@.len() && (#[trigger] old(self)@[j]).id == p.prev.unwrap() && old(
                    self,
                )@[j].sub_id == p.sub_id && old(self)@[j].id.role == p.id.role,
            p.prev is None ==> p.state != ProposalState::Draft,
        ensures
            final(self).wf(),
            final(self)@ == old(self)@.push(p@),
            final(self).next_correlation == old(self).next_correlation,
    {
        let ghost pre = self@;
        self.proposals.push(p);
        proof {
            assert(self@ =~= pre.push(p@));
            assert forall|i: int|
                0 <= i < self@.len() && (#[trigger] self@[i]).prev is Some implies Self::parent_before(
                self@,
                i,
            ) by {
                if i < pre.len() {
                    assert(Self::parent_before(pre, i));
                    let j = choose|j: int|
                        0 <= j < i && (#[trigger] pre[j]).id == pre[i].prev.unwrap() && pre[j].sub_id
                            == pre[i].sub_id && pre[j].id.role == pre[i].id.role;
                    assert(self@[j].id == self@[i].prev.unwrap());
                } else {
                    let j = choose|j: int|
                        0 <= j < pre.len() && (#[trigger] pre[j]).id == p.prev.unwrap()
                            && pre[j].sub_id == p.sub_id && pre[j].id.role == p.id.role;
                    assert(self@[j].id == self@[i].prev.unwrap());
                }
            }
        }
    }

    /// Creates the two mirrored copies of a fresh Initial round for a
    /// matched pair of subscriptions: side `a` (of role `role`) and side `b`
    /// (of the opposite role), sharing one new correlation number. Each
    /// copy belongs to its own side's subscription, names the counterpart
    /// as issuer and carries the counterpart's payload. Returns snapshots
    /// of the two stored copies, `a`'s first.
    pub fn create_initial(
        &mut self,
        role: Role,
        a_sub: u64,
        a_node: String,
        a_payload: Payload,
        b_sub: u64,
        b_node: String,
        b_payload: Payload,
        created: u64,
    ) -> (r: (Proposal, Proposal))
        requires
            old(self).wf(),
            old(self).next_correlation < u64::MAX,
        ensures
            final(self).wf(),
            final(self).next_correlation == old(self).next_correlation + 1,
            r.0@ == (ProposalV {
                id: ProposalId { role, correlation: old(self).next_correlation },
                prev: None,
                issuer: b_node@,
                state: ProposalState::Initial,
                payload: b_payload@,
                sub_id: a_sub,
                created,
            }),
            r.1@ == (ProposalV {
                id: ProposalId {
                    role: role.opposite_spec(),
                    correlation: old(self).next_correlation,
                },
                prev: None,
                issuer: a_node@,
                state: ProposalState::Initial,
                payload: a_payload@,
                sub_id: b_sub,
                created,
            }),
            final(self)@ == old(self)@.push(r.0@).push(r.1@),
    {
        let opp = role.opposite();
        let c = self.alloc_correlation();
        let pa = Proposal {
            id: ProposalId { role, correlation: c },
            prev: None,
            issuer: b_node,
            state: ProposalState::Initial,
            payload: b_payload,
            sub_id: a_sub,
            created,
        };
        let pb = Proposal {
            id: ProposalId { role: opp, correlation: c },
            prev: None,
            issuer: a_node,
            state: ProposalState::Initial,
            payload: a_payload,
            sub_id: b_sub,
            created,
        };
        let ra = pa.clone();
        let rb = pb.clone();
        proof {
            assert(role != opp);
        }
        self.insert(pa);
        proof {
            if self.contains_pid(rb.id) {
                let w = choose|w: int| 0 <= w < self@.len() && self@[w].id == rb.id;
                assert(w < self@.len() - 1 ==> false);
            }
        }
        self.insert(pb);
        (ra, rb)
    }

    /// Why a counter-proposal against `prev_id`, issued by `identity` on the
    /// subscription `sub_id`, must be refused — or `None` when it is owed to
    /// succeed. Turn-taking: the issuer of the round being answered may not
    /// answer it himself, so only the side that did not send the last message
    /// may counter.
    pub open spec fn counter_error(
        self,
        sub_id: u64,
        prev_id: ProposalId,
        identity: Seq<char>,
    ) -> Option<MarketError> {
        if !self.contains_pid(prev_id) {
            Some(MarketError::NotFound)
        } else if self@[self.idx_of(prev_id)].sub_id != sub_id {
            Some(MarketError::NotFound)
        } else if self@[self.idx_of(prev_id)].state.is_terminal() {
            Some(MarketError::InvalidState)
        } else if self.superseded(prev_id) {
            Some(MarketError::InvalidState)
        } else if self@[self.idx_of(prev_id)].issuer == identity {
            Some(MarketError::Forbidden)
        } else {
            None
        }
    }

    /// The record a successful counter against `prev` stores: a Draft under a
    /// fresh correlation number on the same side, answering `prev`.
    pub open spec fn draft_of(
        prev: ProposalV,
        correlation: u64,
        identity: Seq<char>,
        payload: crate::types::PayloadV,
        created: u64,
    ) -> ProposalV {
        ProposalV {
            id: ProposalId { role: prev.id.role, correlation },
            prev: Some(prev.id),
            issuer: identity,
            state: ProposalState::Draft,
            payload,
            sub_id: prev.sub_id,
            created,
        }
    }

    /// Answers the stored round `prev_id` with a new Draft. Fails with
    /// `NotFound` when `prev_id` is unknown on this subscription, with
    /// `InvalidState` when the round is terminal or already answered, and
    /// with `Forbidden` when the caller sent the round being answered.
    pub fn create_counter(
        &mut self,
        sub_id: u64,
        prev_id: ProposalId,
        payload: Payload,
        identity: &String,
        created: u64,
    ) -> (r: Result<ProposalId, MarketError>)
        requires
            old(self).wf(),
            old(self).next_correlation < u64::MAX,
        ensures
            final(self).wf(),
            old(self).counter_error(sub_id, prev_id, identity@) matches Some(e) ==> r == Err::<
                ProposalId,
                MarketError,
            >(e) && final(self)@ == old(self)@ && final(self).next_correlation == old(
                self,
            ).next_correlation,
            old(self).counter_error(sub_id, prev_id, identity@) is None ==> r == Ok::<
                ProposalId,
                MarketError,
            >(
                ProposalId {
                    role: old(self)@[old(self).idx_of(prev_id)].id.role,
                    correlation: old(self).next_correlation,
                },
            ) && final(self)@ == old(self)@.push(
                Self::draft_of(
                    old(self)@[old(self).idx_of(prev_id)],
                    old(self).next_correlation,
                    identity@,
                    payload@,
                    created,
                ),
            ) && final(self).next_correlation == old(self).next_correlation + 1,
    {
        let i = match self.find(prev_id) {
            None => {
                return Err(MarketError::NotFound);
            },
            Some(i) => i,
        };
        if self.proposals[i].sub_id != sub_id {
            return Err(MarketError::NotFound);
        }
        if self.proposals[i].state.terminal() {
            assert(self@[i as int].state.is_terminal());
            return Err(MarketError::InvalidState);
        }
        if self.is_superseded(prev_id) {
            return Err(MarketError::InvalidState);
        }
        if self.proposals[i].issuer == *identity {
            assert(self@[i as int].issuer == identity@);
            return Err(MarketError::Forbidden);
        }
        let role = self.proposals[i].id.role;
        let prev_sub = self.proposals[i].sub_id;
        let c = self.alloc_correlation();
        let id = ProposalId { role, correlation: c };
        let draft = Proposal {
            id,
            prev: Some(prev_id),
            issuer: identity.clone(),
            state: ProposalState::Draft,
            payload,
            sub_id: prev_sub,
            created,
        };
        proof {
            if self.contains_pid(id) {
                let k = choose|k: int| 0 <= k < self@.len() && self@[k].id == id;
                assert(self@[k].id.correlation < self.next_correlation);
            }
        }
        self.insert(draft);
        Ok(id)
    }

    /// Moves the stored round `id` into a terminal state. Returns whether the
    /// id was known; the caller decides what an unknown id means.
    pub fn set_state(&mut self, id: ProposalId, st: ProposalState) -> (r: bool)
        requires
            old(self).wf(),
            st.is_terminal(),
        ensures
            final(self).wf(),
            final(self).next_correlation == old(self).next_correlation,
            r == old(self).contains_pid(id),
            !r ==> final(self)@ == old(self)@,
            r ==> final(self)@ == old(self)@.update(
                old(self).idx_of(id),
                ProposalV { state: st, ..old(self)@[old(self).idx_of(id)] },
            ),
    {
        let i = match self.find(id) {
            None => {
                return false;
            },
            Some(i) => i,
        };
        let ghost pre = self@;
        self.proposals[i].state = st;
        proof {
            assert(self@ =~= pre.update(i as int, ProposalV { state: st, ..pre[i as int] }));
            assert forall|k: int|
                0 <= k < self@.len() && (#[trigger] self@[k]).prev is Some implies Self::parent_before(
                self@,
                k,
            ) by {
                assert(Self::parent_before(pre, k));
                let j = choose|j: int|
                    0 <= j < k && (#[trigger] pre[j]).id == pre[k].prev.unwrap() && pre[j].sub_id
                        == pre[k].sub_id && pre[j].id.role == pre[k].id.role;
                assert(self@[j].id == self@[k].prev.unwrap());
            }
        }
        true
    }

    /// Collects the lineage suffix ending at position `i` into `out`: the
    /// records from the chain's Initial round up to and including `i`, oldest
    /// first, each a copy of a stored record linked to its predecessor.
    #[verifier::rlimit(100)]
    fn chain_rec(&self, i: usize, out: &mut Vec<Proposal>)
        requires
            self.wf(),
            i < self@.len(),
        ensures
            final(out)@.len() > old(out)@.len(),
            final(out)@.map_values(|p: Proposal| p@).take(old(out)@.len() as int) == old(
                out,
            )@.map_values(|p: Proposal| p@),
            ({
                let w = final(out)@.map_values(|p: Proposal| p@).skip(old(out)@.len() as int);
                &&& w[w.len() - 1] == self@[i as int]
                &&& w[0].prev is None
                &&& forall|k: int|
                    0 <= k < w.len() ==> self.contains_pid((#[trigger] w[k]).id) && w[k]
                        == self@[self.idx_of(w[k].id)]
                &&& forall|k: int| 1 <= k < w.len() ==> (#[trigger] w[k]).prev == Some(
                    w[k - 1].id,
                )
            }),
        decreases i,
    {
        let ghost base = out@.map_values(|p: Proposal| p@);
        let prev = self.proposals[i].prev;
        match prev {
            None => {
                out.push(self.proposals[i].clone());
                proof {
                    let m = out@.map_values(|p: Proposal| p@);
                    assert(m =~= base.push(self@[i as int]));
                    assert(m.take(base.len() as int) =~= base);
                    let w = m.skip(base.len() as int);
                    assert(w =~= seq![self@[i as int]]);
                    self.lemma_idx_of(self@[i as int].id);
                }
            },
            Some(pid) => {
                proof {
                    assert(self@[i as int].prev is Some);
                    assert(Self::parent_before(self@, i as int));
                }
                let j = match self.find(pid) {
                    Some(j) => j,
                    None => {
                        proof {
                            let cur = self@[i as int];
                            let j0 = choose|j0: int|
                                0 <= j0 < i && (#[trigger] self@[j0]).id == cur.prev.unwrap()
                                    && self@[j0].sub_id == cur.sub_id && self@[j0].id.role
                                    == cur.id.role;
                            assert(self@[j0].id == pid);
                            assert(false);
                        }
                        return;
                    },
                };
                proof {
                    let cur = self@[i as int];
                    let j0 = choose|j0: int|
                        0 <= j0 < i && (#[trigger] self@[j0]).id == cur.prev.unwrap()
                            && self@[j0].sub_id == cur.sub_id && self@[j0].id.role == cur.id.role;
                    assert(self@[j0].id == pid);
                    self.lemma_idx_of(pid);
                    assert(j as int == j0);
                }
                self.chain_rec(j, out);
                let ghost mid = out@.map_values(|p: Proposal| p@);
                out.push(self.proposals[i].clone());
                proof {
                    let m = out@.map_values(|p: Proposal| p@);
                    assert(m =~= mid.push(self@[i as int]));
                    assert(m.take(base.len() as int) =~= base);
                    let wmid = mid.skip(base.len() as int);
                    let w = m.skip(base.len() as int);
                    assert(w =~= wmid.push(self@[i as int]));
                    self.lemma_idx_of(self@[i as int].id);
                    assert(w[w.len() - 2] == wmid[wmid.len() - 1]);
                    assert(self@[i as int].prev == Some(self@[j as int].id));
                }
            },
        }
    }

    /// The ordered lineage of the round `id`: from its Initial round to `id`
    /// itself, each entry a copy of a stored record and each non-first entry
    /// answering the one before it.
    #[verifier::rlimit(100)]
    pub fn chain(&self, id: ProposalId) -> (r: Result<Vec<Proposal>, MarketError>)
        requires
            self.wf(),
        ensures
            !self.contains_pid(id) ==> r == Err::<Vec<Proposal>, MarketError>(
                MarketError::NotFound,
            ),
            self.contains_pid(id) ==> (r matches Ok(v) && {
                let w = v@.map_values(|p: Proposal| p@);
                &&& w.len() >= 1
                &&& w[w.len() - 1] == self@[self.idx_of(id)]
                &&& w[0].prev is None
                &&& forall|k: int|
                    0 <= k < w.len() ==> self.contains_pid((#[trigger] w[k]).id) && w[k]
                        == self@[self.idx_of(w[k].id)]
                &&& forall|k: int| 1 <= k < w.len() ==> (#[trigger] w[k]).prev == Some(
                    w[k - 1].id,
                )
            }),
    {
        match self.find(id) {
            None => Err(MarketError::NotFound),
            Some(i) => {
                let mut out: Vec<Proposal> = Vec::new();
                proof {
                    assert(out@.map_values(|p: Proposal| p@) =~= Seq::<ProposalV>::empty());
                }
                self.chain_rec(i, &mut out);
                proof {
                    let w = out@.map_values(|p: Proposal| p@);
                    assert(w.skip(0) =~= w);
                }
                Ok(out)
            },
        }
    }
}

} // verus!
