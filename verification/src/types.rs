use vstd::prelude::*;

verus! {

/// Which side of the marketplace a subscription or a proposal copy belongs to.
/// A Requestor publishes Demands, a Provider publishes Offers.
#[derive(Clone, Copy, Debug, PartialEq, Eq, Structural)]
pub enum Role {
    Requestor,
    Provider,
}

impl Role {
    /// The counterpart side.
    pub fn opposite(&self) -> (r: Role)
        ensures
            r == self.opposite_spec(),
    {
        match self {
            Role::Requestor => Role::Provider,
            Role::Provider => Role::Requestor,
        }
    }

    pub open spec fn opposite_spec(self) -> Role {
        match self {
            Role::Requestor => Role::Provider,
            Role::Provider => Role::Requestor,
        }
    }
}

/// Lifecycle state of one proposal record. `Initial` and `Draft` are live;
/// the other three are terminal: no further counter-proposal is accepted.
#[derive(Clone, Copy, Debug, PartialEq, Eq, Structural)]
pub enum ProposalState {
    Initial,
    Draft,
    Approved,
    Rejected,
    Expired,
}

impl ProposalState {
    pub open spec fn is_terminal(self) -> bool {
        self == ProposalState::Approved || self == ProposalState::Rejected || self
            == ProposalState::Expired
    }

    pub fn terminal(&self) -> (r: bool)
        ensures
            r == self.is_terminal(),
    {
        match self {
            ProposalState::Approved => true,
            ProposalState::Rejected => true,
            ProposalState::Expired => true,
            _ => false,
        }
    }
}

/// A proposal identifier: a role tag plus the correlation number shared by the
/// two mirrored copies of one negotiation round. The two copies of a round
/// differ only in the role tag.
#[derive(Clone, Copy, Debug, PartialEq, Eq, Structural)]
pub struct ProposalId {
    pub role: Role,
    pub correlation: u64,
}

impl ProposalId {
    /// Rewrites the role tag without touching the correlation number: the id
    /// under which the mirrored copy of this round is addressable on the
    /// side given by `role`.
    pub fn translate(&self, role: Role) -> (r: ProposalId)
        ensures
            r.role == role,
            r.correlation == self.correlation,
    {
        ProposalId { role, correlation: self.correlation }
    }
}

/// Everything the engine can report to a caller. Duplicate inbound deliveries
/// are not errors: they are swallowed as successes.
#[derive(Clone, Copy, Debug, PartialEq, Eq, Structural)]
pub enum MarketError {
    /// The named subscription or proposal id is unknown.
    NotFound,
    /// The caller does not own the resource or violates turn-taking.
    Forbidden,
    /// The operation is illegal for the proposal's current state.
    InvalidState,
    /// The requested event count is out of range: (requested, cap).
    InvalidMaxEvents(i32, i32),
    /// Raised only to unblock a waiter whose subscription was removed mid-wait.
    Unsubscribed(u64),
    /// A synchronous transport failure, surfaced verbatim by the caller side.
    TransportError,
}

/// One property or constraint entry: a key and the value it must carry.
#[derive(Debug)]
pub struct Pair {
    pub key: String,
    pub value: String,
}

/// The contents of a `Pair`, compared by characters, not by allocation.
#[verifier::ext_equal]
pub struct PairV {
    pub key: Seq<char>,
    pub value: Seq<char>,
}

impl View for Pair {
    type V = PairV;

    open spec fn view(&self) -> PairV {
        PairV { key: self.key@, value: self.value@ }
    }
}

impl Clone for Pair {
    fn clone(&self) -> (res: Self)
        ensures
            res@ == self@,
    {
        Pair { key: self.key.clone(), value: self.value.clone() }
    }
}

/// The specification payload of a subscription or a proposal: the properties
/// this side advertises and the constraints the counterpart's properties must
/// satisfy. A constraint entry is satisfied when the counterpart lists a
/// property with the same key and the same value.
#[derive(Debug)]
pub struct Payload {
    pub properties: Vec<Pair>,
    pub constraints: Vec<Pair>,
}

#[verifier::ext_equal]
pub struct PayloadV {
    pub properties: Seq<PairV>,
    pub constraints: Seq<PairV>,
}

impl View for Payload {
    type V = PayloadV;

    open spec fn view(&self) -> PayloadV {
        PayloadV {
            properties: self.properties@.map_values(|p: Pair| p@),
            constraints: self.constraints@.map_values(|p: Pair| p@),
        }
    }
}

impl Clone for Payload {
    fn clone(&self) -> (res: Self)
        ensures
            res@ == self@,
    {
        let properties = self.properties.clone();
        let constraints = self.constraints.clone();
        proof {
            assert forall|i: int| 0 <= i < self.properties@.len() implies properties@[i]@
                == self.properties@[i]@ by {
                assert(cloned::<Pair>(self.properties@[i], properties@[i]));
            }
            assert forall|i: int| 0 <= i < self.constraints@.len() implies constraints@[i]@
                == self.constraints@[i]@ by {
                assert(cloned::<Pair>(self.constraints@[i], constraints@[i]));
            }
            assert(properties@.map_values(|p: Pair| p@) =~= self.properties@.map_values(
                |p: Pair| p@,
            ));
            assert(constraints@.map_values(|p: Pair| p@) =~= self.constraints@.map_values(
                |p: Pair| p@,
            ));
        }
        Payload { properties, constraints }
    }
}

/// A constraint entry `c` is satisfied by a property list when some property
/// carries the same key and the same value.
pub open spec fn pair_satisfied(props: Seq<PairV>, c: PairV) -> bool {
    exists|j: int| 0 <= j < props.len() && props[j].key == c.key && props[j].value == c.value
}

pub open spec fn constraints_satisfied(props: Seq<PairV>, cons: Seq<PairV>) -> bool {
    forall|i: int| 0 <= i < cons.len() ==> pair_satisfied(props, #[trigger] cons[i])
}

/// The mutual match test: each side's constraints must be satisfied by the
/// other side's properties.
pub open spec fn payloads_match(a: PayloadV, b: PayloadV) -> bool {
    constraints_satisfied(b.properties, a.constraints) && constraints_satisfied(
        a.properties,
        b.constraints,
    )
}

/// The match test never depends on which side is given first.
pub proof fn lemma_match_symmetric(a: PayloadV, b: PayloadV)
    ensures
        payloads_match(a, b) == payloads_match(b, a),
{
}

fn pair_contents_equal(a: &Pair, b: &Pair) -> (r: bool)
    ensures
        r == (a@ == b@),
{
    let r = a.key == b.key && a.value == b.value;
    proof {
        if a.key@ == b.key@ && a.value@ == b.value@ {
            assert(a@ =~= b@);
        }
    }
    r
}

fn satisfies(props: &Vec<Pair>, c: &Pair) -> (r: bool)
    ensures
        r == pair_satisfied(props@.map_values(|p: Pair| p@), c@),
{
    let ghost vprops = props@.map_values(|p: Pair| p@);
    let mut i: usize = 0;
    while i < props.len()
        invariant
            0 <= i <= props@.len(),
            vprops == props@.map_values(|p: Pair| p@),
            forall|k: int| 0 <= k < i ==> !(vprops[k].key == c@.key && vprops[k].value == c@.value),
        decreases props@.len() - i,
    {
        if pair_contents_equal(&props[i], c) {
            assert(vprops[i as int].key == c@.key && vprops[i as int].value == c@.value);
            return true;
        }
        i = i + 1;
    }
    false
}

fn constraints_ok(props: &Vec<Pair>, cons: &Vec<Pair>) -> (r: bool)
    ensures
        r == constraints_satisfied(
            props@.map_values(|p: Pair| p@),
            cons@.map_values(|p: Pair| p@),
        ),
{
    let ghost vprops = props@.map_values(|p: Pair| p@);
    let ghost vcons = cons@.map_values(|p: Pair| p@);
    let mut i: usize = 0;
    while i < cons.len()
        invariant
            0 <= i <= cons@.len(),
            vprops == props@.map_values(|p: Pair| p@),
            vcons == cons@.map_values(|p: Pair| p@),
            forall|k: int| 0 <= k < i ==> pair_satisfied(vprops, #[trigger] vcons[k]),
        decreases cons@.len() - i,
    {
        if !satisfies(props, &cons[i]) {
            assert(vcons[i as int] == cons@[i as int]@);
            return false;
        }
        i = i + 1;
    }
    true
}

/// Evaluates the mutual match test between two specification payloads.
pub fn payload_matches(a: &Payload, b: &Payload) -> (r: bool)
    ensures
        r == payloads_match(a@, b@),
{
    constraints_ok(&b.properties, &a.constraints) && constraints_ok(&a.properties, &b.constraints)
}

/// The demand payload a requestor agent publishes: the node's name and its
/// `ala` marker among the properties, and the capacity entries its
/// counterpart must list.
pub fn build_demand(node_name: &str) -> (d: Payload)
    ensures
        d@.properties =~= seq![
            PairV { key: "golem.node.id.name"@, value: node_name@ },
            PairV { key: "golem.node.ala"@, value: "1"@ },
        ],
        d@.constraints =~= seq![
            PairV { key: "golem.inf.mem.gib"@, value: "0.5"@ },
            PairV { key: "golem.inf.storage.gib"@, value: "1"@ },
        ],
{
    let mut properties: Vec<Pair> = Vec::new();
    properties.push(Pair { key: "golem.node.id.name".to_owned(), value: node_name.to_owned() });
    properties.push(Pair { key: "golem.node.ala".to_owned(), value: "1".to_owned() });
    let mut constraints: Vec<Pair> = Vec::new();
    constraints.push(Pair { key: "golem.inf.mem.gib".to_owned(), value: "0.5".to_owned() });
    constraints.push(Pair { key: "golem.inf.storage.gib".to_owned(), value: "1".to_owned() });
    Payload { properties, constraints }
}

/// A registered Demand or Offer awaiting matches, owned by `node`.
#[derive(Debug)]
pub struct Subscription {
    pub id: u64,
    pub node: String,
    pub role: Role,
    pub payload: Payload,
    pub created: u64,
}

#[verifier::ext_equal]
pub struct SubscriptionV {
    pub id: u64,
    pub node: Seq<char>,
    pub role: Role,
    pub payload: PayloadV,
    pub created: u64,
}

impl View for Subscription {
    type V = SubscriptionV;

    open spec fn view(&self) -> SubscriptionV {
        SubscriptionV {
            id: self.id,
            node: self.node@,
            role: self.role,
            payload: self.payload@,
            created: self.created,
        }
    }
}

impl Clone for Subscription {
    fn clone(&self) -> (res: Self)
        ensures
            res@ == self@,
    {
        let res = Subscription {
            id: self.id,
            node: self.node.clone(),
            role: self.role,
            payload: self.payload.clone(),
            created: self.created,
        };
        proof {
            assert(res@ =~= self@);
        }
        res
    }
}

/// One side's record of one negotiation round. `prev` is `None` exactly for a
/// matcher-generated Initial round; every countered round points back to the
/// round it answers, forming an acyclic chain to the Initial one.
#[derive(Debug)]
pub struct Proposal {
    pub id: ProposalId,
    pub prev: Option<ProposalId>,
    pub issuer: String,
    pub state: ProposalState,
    pub payload: Payload,
    /// The local subscription this side's copy belongs to.
    pub sub_id: u64,
    pub created: u64,
}

#[verifier::ext_equal]
pub struct ProposalV {
    pub id: ProposalId,
    pub prev: Option<ProposalId>,
    pub issuer: Seq<char>,
    pub state: ProposalState,
    pub payload: PayloadV,
    pub sub_id: u64,
    pub created: u64,
}

impl View for Proposal {
    type V = ProposalV;

    open spec fn view(&self) -> ProposalV {
        ProposalV {
            id: self.id,
            prev: self.prev,
            issuer: self.issuer@,
            state: self.state,
            payload: self.payload@,
            sub_id: self.sub_id,
            created: self.created,
        }
    }
}

impl Clone for Proposal {
    fn clone(&self) -> (res: Self)
        ensures
            res@ == self@,
    {
        let res = Proposal {
            id: self.id,
            prev: self.prev,
            issuer: self.issuer.clone(),
            state: self.state,
            payload: self.payload.clone(),
            sub_id: self.sub_id,
            created: self.created,
        };
        proof {
            assert(res@ =~= self@);
        }
        res
    }
}

/// An undelivered notification: a snapshot of a proposal, queued for the
/// owner of `sub_id`, consumed exactly once. `seq` is the engine-wide
/// production stamp that makes delivery accounting exact.
#[derive(Debug)]
pub struct Event {
    pub sub_id: u64,
    pub seq: u64,
    pub proposal: Proposal,
    pub created: u64,
}

#[verifier::ext_equal]
pub struct EventV {
    pub sub_id: u64,
    pub seq: u64,
    pub proposal: ProposalV,
    pub created: u64,
}

impl View for Event {
    type V = EventV;

    open spec fn view(&self) -> EventV {
        EventV {
            sub_id: self.sub_id,
            seq: self.seq,
            proposal: self.proposal@,
            created: self.created,
        }
    }
}

impl Clone for Event {
    fn clone(&self) -> (res: Self)
        ensures
            res@ == self@,
    {
        let res = Event {
            sub_id: self.sub_id,
            seq: self.seq,
            proposal: self.proposal.clone(),
            created: self.created,
        };
        proof {
            assert(res@ =~= self@);
        }
        res
    }
}

} // verus!
