use market_engine::engine::{MarketEngine, QueryOutcome};
use market_engine::types::{Event, MarketError, Pair, Payload, ProposalState, Role};

fn pair(k: &str, v: &str) -> Pair {
    Pair { key: k.to_string(), value: v.to_string() }
}

fn demand_payload() -> Payload {
    Payload {
        properties: vec![pair("node.id.name", "test1")],
        constraints: vec![pair("runtime", "wasm")],
    }
}

fn offer_payload() -> Payload {
    Payload {
        properties: vec![pair("runtime", "wasm")],
        constraints: vec![pair("node.id.name", "test1")],
    }
}

fn counter_err(
    r: Result<(market_engine::types::ProposalId, market_engine::engine::DraftTransfer), MarketError>,
) -> MarketError {
    match r {
        Ok((id, _)) => panic!("expected an error, got draft {:?}", id),
        Err(e) => e,
    }
}

fn poll(e: &mut MarketEngine, sub: u64, max: i32) -> Result<Vec<Event>, MarketError> {
    match e.query_step(sub, max, false, true) {
        Ok(QueryOutcome::Events(v)) => Ok(v),
        Ok(QueryOutcome::Wait) => panic!("a query with an expired timeout must not wait"),
        Err(err) => Err(err),
    }
}

/// A negotiated pair on one engine: the offer and demand ids and the
/// Initial proposal as seen by the demand side.
fn matched_pair(engine: &mut MarketEngine) -> (u64, u64, market_engine::types::Proposal) {
    let offer = engine.subscribe(offer_payload(), Role::Provider, "node-b".to_string(), 1);
    let demand = engine.subscribe(demand_payload(), Role::Requestor, "node-a".to_string(), 2);
    let events = poll(engine, demand, 5).unwrap();
    assert_eq!(events.len(), 1);
    (offer, demand, events[0].proposal.clone())
}

#[test]
fn query_never_exceeds_max_events() {
    let mut engine = MarketEngine::new();
    for i in 0..5u64 {
        engine.subscribe(offer_payload(), Role::Provider, format!("p{}", i), i);
    }
    let demand = engine.subscribe(demand_payload(), Role::Requestor, "r".to_string(), 9);
    let first = poll(&mut engine, demand, 2).unwrap();
    assert_eq!(first.len(), 2);
    let second = poll(&mut engine, demand, 100).unwrap();
    assert_eq!(second.len(), 3);
    // Nothing returned twice: the production stamps of the two batches are
    // disjoint.
    for a in &first {
        for b in &second {
            assert_ne!(a.seq, b.seq);
        }
    }
}

#[test]
fn invalid_max_events_zero_and_negative() {
    let mut engine = MarketEngine::new();
    let demand = engine.subscribe(demand_payload(), Role::Requestor, "r".to_string(), 1);
    assert!(matches!(poll(&mut engine, demand, 0), Err(MarketError::InvalidMaxEvents(0, 100))));
    assert!(matches!(poll(&mut engine, demand, -5), Err(MarketError::InvalidMaxEvents(-5, 100))));
}

#[test]
fn unknown_subscription_fails_not_found_for_any_timeout() {
    let mut engine = MarketEngine::new();
    // First step of a blocking query and a non-blocking poll agree.
    match engine.query_step(3, 5, false, false) {
        Err(MarketError::NotFound) => {},
        other => panic!("expected NotFound, got {:?}", other),
    }
    assert!(matches!(poll(&mut engine, 3, 5), Err(MarketError::NotFound)));
}

#[test]
fn unsubscribe_checks_ownership() {
    let mut engine = MarketEngine::new();
    let owner = "node-a".to_string();
    let intruder = "node-b".to_string();
    let demand = engine.subscribe(demand_payload(), Role::Requestor, owner.clone(), 1);
    assert_eq!(engine.unsubscribe(demand, &intruder), Err(MarketError::Forbidden));
    assert_eq!(engine.unsubscribe(demand, &owner), Ok(()));
    assert_eq!(engine.unsubscribe(demand, &owner), Err(MarketError::NotFound));
}

#[test]
fn matching_n_offers_yields_n_proposals_and_events() {
    let mut engine = MarketEngine::new();
    let n = 8u64;
    for i in 0..n {
        engine.subscribe(offer_payload(), Role::Provider, format!("p{}", i), i);
    }
    // One unrelated offer whose constraints cannot match.
    engine.subscribe(
        Payload {
            properties: vec![pair("runtime", "vm")],
            constraints: vec![pair("node.id.name", "someone-else")],
        },
        Role::Provider,
        "stranger".to_string(),
        77,
    );
    let demand = engine.subscribe(demand_payload(), Role::Requestor, "r".to_string(), 99);
    let events = poll(&mut engine, demand, 100).unwrap();
    assert_eq!(events.len(), n as usize);
    for ev in &events {
        assert_eq!(ev.proposal.state, ProposalState::Initial);
        assert!(ev.proposal.prev.is_none());
    }
}

#[test]
fn countering_terminal_proposals_fails_invalid_state() {
    // Rejected.
    let mut engine = MarketEngine::new();
    let (_, demand, initial) = matched_pair(&mut engine);
    engine.reject_proposal(initial.id, &"node-a".to_string()).unwrap();
    assert_eq!(
        counter_err(engine.counter_proposal(demand, initial.id, demand_payload(), &"node-a".to_string(), 5)),
        MarketError::InvalidState
    );

    // Approved.
    let mut engine = MarketEngine::new();
    let (_, demand, initial) = matched_pair(&mut engine);
    engine.approve_proposal(initial.id, &"node-a".to_string()).unwrap();
    assert_eq!(
        counter_err(engine.counter_proposal(demand, initial.id, demand_payload(), &"node-a".to_string(), 5)),
        MarketError::InvalidState
    );

    // Expired.
    let mut engine = MarketEngine::new();
    let (_, demand, initial) = matched_pair(&mut engine);
    engine.expire_proposal(initial.id).unwrap();
    assert_eq!(
        counter_err(engine.counter_proposal(demand, initial.id, demand_payload(), &"node-a".to_string(), 5)),
        MarketError::InvalidState
    );
}

#[test]
fn terminal_transitions_are_final() {
    let mut engine = MarketEngine::new();
    let (_, _, initial) = matched_pair(&mut engine);
    engine.approve_proposal(initial.id, &"node-a".to_string()).unwrap();
    assert_eq!(
        engine.reject_proposal(initial.id, &"node-a".to_string()),
        Err(MarketError::InvalidState)
    );
    assert_eq!(engine.expire_proposal(initial.id), Err(MarketError::InvalidState));
}

#[test]
fn counter_turn_taking_is_enforced() {
    let mut engine = MarketEngine::new();
    let (_, demand, initial) = matched_pair(&mut engine);

    // Only the owner of the subscription may counter on it.
    assert_eq!(
        counter_err(engine.counter_proposal(demand, initial.id, demand_payload(), &"node-b".to_string(), 4)),
        MarketError::Forbidden
    );
    let (draft_id, _t) = engine
        .counter_proposal(demand, initial.id, demand_payload(), &"node-a".to_string(), 5)
        .unwrap();
    // The sender of the last round may not answer himself.
    assert_eq!(
        counter_err(engine.counter_proposal(demand, draft_id, demand_payload(), &"node-a".to_string(), 6)),
        MarketError::Forbidden
    );
    // And a superseded round may not be countered again.
    assert_eq!(
        counter_err(engine.counter_proposal(demand, initial.id, demand_payload(), &"node-a".to_string(), 7)),
        MarketError::InvalidState
    );
}

#[test]
fn counter_on_unknown_proposal_fails_not_found() {
    let mut engine = MarketEngine::new();
    let (_, demand, initial) = matched_pair(&mut engine);
    let unknown = market_engine::types::ProposalId { role: Role::Requestor, correlation: 55 };
    assert_eq!(
        counter_err(engine.counter_proposal(demand, unknown, demand_payload(), &"node-a".to_string(), 5)),
        MarketError::NotFound
    );
    // A real round addressed through the wrong subscription is not found
    // there either.
    let other = engine.subscribe(demand_payload(), Role::Requestor, "node-a".to_string(), 8);
    assert_eq!(
        counter_err(engine.counter_proposal(other, initial.id, demand_payload(), &"node-a".to_string(), 9)),
        MarketError::NotFound
    );
}

#[test]
fn two_node_scenario_single_initial_event() {
    // Demand D of node-a, Offer O of node-b, matching predicates: query(D)
    // returns exactly one Initial event without a predecessor, and querying
    // again at once returns nothing.
    let mut engine = MarketEngine::new();
    engine.subscribe(offer_payload(), Role::Provider, "node-b".to_string(), 1);
    let demand = engine.subscribe(demand_payload(), Role::Requestor, "node-a".to_string(), 2);

    let events = poll(&mut engine, demand, 100).unwrap();
    assert_eq!(events.len(), 1);
    assert_eq!(events[0].proposal.state, ProposalState::Initial);
    assert!(events[0].proposal.prev.is_none());

    let again = poll(&mut engine, demand, 100).unwrap();
    assert_eq!(again.len(), 0);
}

#[test]
fn shuffle_still_delivers_every_event_exactly_once() {
    // Even with randomized delivery order, a drain hands out exactly the
    // produced events: same stamps, each once.
    let mut engine = MarketEngine::new();
    for i in 0..10u64 {
        engine.subscribe(offer_payload(), Role::Provider, format!("p{}", i), i);
    }
    let demand = engine.subscribe(demand_payload(), Role::Requestor, "r".to_string(), 99);
    let events = poll(&mut engine, demand, 100).unwrap();
    let mut stamps: Vec<u64> = events.iter().map(|e| e.seq).collect();
    stamps.sort();
    stamps.dedup();
    assert_eq!(stamps.len(), 10);
}

#[test]
fn mismatched_subscriptions_never_interact() {
    let mut engine = MarketEngine::new();
    engine.subscribe(
        Payload {
            properties: vec![pair("runtime", "vm")],
            constraints: vec![pair("cpu", "8")],
        },
        Role::Provider,
        "node-b".to_string(),
        1,
    );
    let demand = engine.subscribe(demand_payload(), Role::Requestor, "node-a".to_string(), 2);
    assert_eq!(poll(&mut engine, demand, 100).unwrap().len(), 0);
    // Same role never matches either, even with agreeing payloads.
    let other = engine.subscribe(offer_payload(), Role::Requestor, "node-c".to_string(), 3);
    assert_eq!(poll(&mut engine, other, 100).unwrap().len(), 0);
}
