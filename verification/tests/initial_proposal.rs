use market_engine::engine::{MarketEngine, QueryOutcome};
use market_engine::types::{Event, MarketError, Pair, Payload, ProposalState, Role};

fn pair(k: &str, v: &str) -> Pair {
    Pair { key: k.to_string(), value: v.to_string() }
}

fn demand_payload() -> Payload {
    Payload {
        properties: vec![pair("node.id.name", "test1")],
        constraints: vec![pair("runtime", "wasm")],
    }
}

fn offer_payload() -> Payload {
    Payload {
        properties: vec![pair("runtime", "wasm")],
        constraints: vec![pair("node.id.name", "test1")],
    }
}

/// A non-blocking query: the first step of `query`, taken with the deadline
/// already behind it, as a caller with a non-positive timeout takes it.
fn poll(e: &mut MarketEngine, sub: u64, max: i32) -> Result<Vec<Event>, MarketError> {
    match e.query_step(sub, max, false, true) {
        Ok(QueryOutcome::Events(v)) => Ok(v),
        Ok(QueryOutcome::Wait) => panic!("a query with an expired timeout must not wait"),
        Err(err) => Err(err),
    }
}

#[test]
fn test_query_events_non_existent_subscription() {
    let mut engine = MarketEngine::new();
    engine.subscribe(demand_payload(), Role::Requestor, "Node-1".to_string(), 1);
    let r = poll(&mut engine, 777, 5);
    assert!(matches!(r, Err(MarketError::NotFound)));
}

#[test]
fn test_query_initial_proposal() {
    let mut engine = MarketEngine::new();
    engine.subscribe(offer_payload(), Role::Provider, "Node-1".to_string(), 1);
    let demand = engine.subscribe(demand_payload(), Role::Requestor, "Identity2".to_string(), 2);

    let events = poll(&mut engine, demand, 5).unwrap();
    assert_eq!(events.len(), 1);
    let proposal = &events[0].proposal;
    assert_eq!(proposal.state, ProposalState::Initial);
    assert!(proposal.prev.is_none());
    assert_eq!(proposal.sub_id, demand);

    // The event was consumed by the query: asking again returns nothing.
    let again = poll(&mut engine, demand, 5).unwrap();
    assert_eq!(again.len(), 0);
}

#[test]
fn test_query_multiple_events() {
    let mut engine = MarketEngine::new();
    for i in 0..3u64 {
        engine.subscribe(offer_payload(), Role::Provider, format!("Node-1-{}", i), i);
    }
    let demand = engine.subscribe(demand_payload(), Role::Requestor, "Identity2".to_string(), 9);

    let events = poll(&mut engine, demand, 10).unwrap();
    assert_eq!(events.len(), 3);
    for ev in &events {
        assert_eq!(ev.proposal.state, ProposalState::Initial);
        assert!(ev.proposal.prev.is_none());
    }
    let mut correlations: Vec<u64> = events.iter().map(|e| e.proposal.id.correlation).collect();
    correlations.sort();
    correlations.dedup();
    assert_eq!(correlations.len(), 3);
}

#[test]
fn test_query_events_timeout() {
    let mut engine = MarketEngine::new();
    let demand = engine.subscribe(demand_payload(), Role::Requestor, "Node-1".to_string(), 50);

    // Nothing matches, so the first step of a blocking query parks the caller...
    match engine.query_step(demand, 5, false, false) {
        Ok(QueryOutcome::Wait) => {},
        other => panic!("expected a wait, got {:?}", other),
    }
    // ...and once the timeout (say 1250 ms) elapses, the caller gets
    // whatever is available: an empty batch.
    match engine.query_step(demand, 5, true, true) {
        Ok(QueryOutcome::Events(v)) => assert_eq!(v.len(), 0),
        other => panic!("expected an empty batch, got {:?}", other),
    }
}

#[test]
fn test_query_events_unsubscribe_notification() {
    let mut engine = MarketEngine::new();
    let identity = "Node-1".to_string();
    let demand = engine.subscribe(demand_payload(), Role::Requestor, identity.clone(), 50);

    match engine.query_step(demand, 5, false, false) {
        Ok(QueryOutcome::Wait) => {},
        other => panic!("expected a wait, got {:?}", other),
    }
    engine.unsubscribe(demand, &identity).unwrap();
    // The blocked caller's next step resolves well before its 1250 ms
    // deadline, and with the dedicated error.
    match engine.query_step(demand, 5, true, false) {
        Err(MarketError::Unsubscribed(id)) => assert_eq!(id, demand),
        other => panic!("Expected Unsubscribed error, but got {:?}", other),
    }
}

#[test]
fn test_query_events_edge_cases() {
    let mut engine = MarketEngine::new();
    let demand = engine.subscribe(demand_payload(), Role::Requestor, "Node-1".to_string(), 1);
    engine.subscribe(offer_payload(), Role::Provider, "Identity2".to_string(), 2);

    // The cap is 100: both 200 and slightly over the cap are refused.
    assert!(matches!(poll(&mut engine, demand, 200), Err(MarketError::InvalidMaxEvents(200, 100))));
    assert!(matches!(poll(&mut engine, demand, 101), Err(MarketError::InvalidMaxEvents(101, 100))));
    // A request for up to 20 events returns the single available one.
    let events = poll(&mut engine, demand, 20).unwrap();
    assert_eq!(events.len(), 1);
    // The cap itself is accepted.
    let events = poll(&mut engine, demand, 100).unwrap();
    assert_eq!(events.len(), 0);
}

#[test]
fn test_query_events_for_multiple_subscriptions() {
    let mut engine = MarketEngine::new();
    let d1 = engine.subscribe(demand_payload(), Role::Requestor, "Node-1".to_string(), 1);
    let d2 = engine.subscribe(demand_payload(), Role::Requestor, "Node-1".to_string(), 2);
    engine.subscribe(offer_payload(), Role::Provider, "Identity2".to_string(), 3);

    // The offer matches both demands: each gets exactly one event on its
    // own queue, and draining one queue leaves the other full.
    let ev1 = poll(&mut engine, d1, 10).unwrap();
    assert_eq!(ev1.len(), 1);
    let ev2 = poll(&mut engine, d2, 10).unwrap();
    assert_eq!(ev2.len(), 1);
    assert_eq!(ev1[0].sub_id, d1);
    assert_eq!(ev2[0].sub_id, d2);
}

#[test]
fn test_simultaneous_query_events() {
    let mut engine = MarketEngine::new();
    for i in 0..4u64 {
        engine.subscribe(offer_payload(), Role::Provider, format!("Node-1-{}", i), i);
    }
    let demand = engine.subscribe(demand_payload(), Role::Requestor, "Identity2".to_string(), 50);

    // Two queries racing on one subscription are serialized: each event
    // goes to exactly one of them, none is lost, none is duplicated.
    let batch_a = poll(&mut engine, demand, 2).unwrap();
    let batch_b = poll(&mut engine, demand, 100).unwrap();
    assert_eq!(batch_a.len(), 2);
    assert_eq!(batch_b.len(), 2);
    let mut stamps: Vec<u64> =
        batch_a.iter().chain(batch_b.iter()).map(|e| e.seq).collect();
    stamps.sort();
    stamps.dedup();
    assert_eq!(stamps.len(), 4, "Expected ProposalEvents to be disjoint and complete");
}

#[test]
fn test_unsubscribe_demand_while_query_events_for_other() {
    let mut engine = MarketEngine::new();
    let identity = "Node-1".to_string();
    let d1 = engine.subscribe(demand_payload(), Role::Requestor, identity.clone(), 50);
    let d2 = engine.subscribe(demand_payload(), Role::Requestor, "Identity2".to_string(), 51);

    // A caller blocks on d1; removing d2 must not wake or break it.
    match engine.query_step(d1, 5, false, false) {
        Ok(QueryOutcome::Wait) => {},
        other => panic!("expected a wait, got {:?}", other),
    }
    engine.unsubscribe(d2, &"Identity2".to_string()).unwrap();
    match engine.query_step(d1, 5, true, false) {
        Ok(QueryOutcome::Wait) => {},
        other => panic!("expected the waiter on the other demand to keep waiting, got {:?}", other),
    }
    // Until its own 1250 ms deadline passes, when it gets an empty batch.
    match engine.query_step(d1, 5, true, true) {
        Ok(QueryOutcome::Events(v)) => assert_eq!(v.len(), 0),
        other => panic!("expected an empty batch, got {:?}", other),
    }
}

#[test]
fn test_counter_initial_proposal() {
    let mut engine = MarketEngine::new();
    let provider_identity = "Node-1".to_string();
    let requestor_identity = "Identity2".to_string();
    let offer = engine.subscribe(offer_payload(), Role::Provider, provider_identity.clone(), 1);
    let demand =
        engine.subscribe(demand_payload(), Role::Requestor, requestor_identity.clone(), 2);

    let events = poll(&mut engine, demand, 5).unwrap();
    assert_eq!(events.len(), 1);
    let initial = &events[0].proposal;
    assert_eq!(initial.state, ProposalState::Initial);

    let counter = Payload {
        properties: vec![pair("node.id.name", "test1"), pair("price", "lower")],
        constraints: vec![pair("runtime", "wasm")],
    };
    let (draft_id, transfer) = engine
        .counter_proposal(demand, initial.id, counter, &requestor_identity, 3)
        .unwrap();

    // The counter produced a fresh round on the requestor side.
    assert_ne!(draft_id, initial.id);
    assert_eq!(draft_id.role, Role::Requestor);
    let draft = engine.get_proposal(draft_id).unwrap();
    assert_eq!(draft.state, ProposalState::Draft);
    assert_eq!(draft.prev, Some(initial.id));

    // The transfer addresses the provider's mirrored copies.
    assert_eq!(transfer.id, draft_id.translate(Role::Provider));
    assert_eq!(transfer.prev.correlation, initial.id.correlation);

    // Delivering it mirrors the Draft on the provider side, linked to the
    // provider's copy of the Initial round, and queues an event there.
    engine.receive_proposal(&transfer).unwrap();
    let mirrored = engine.get_proposal(transfer.id).unwrap();
    assert_eq!(mirrored.state, ProposalState::Draft);
    assert_eq!(mirrored.prev, Some(transfer.prev));

    let provider_events = poll(&mut engine, offer, 10).unwrap();
    let drafts: Vec<&Event> = provider_events
        .iter()
        .filter(|e| e.proposal.state == ProposalState::Draft)
        .collect();
    assert_eq!(drafts.len(), 1, "Invalid event Type. ProposalEvent expected");
    assert_eq!(drafts[0].proposal.id, transfer.id);

    // Replaying the delivery is swallowed and queues nothing new.
    engine.receive_proposal(&transfer).unwrap();
    let replayed = poll(&mut engine, offer, 10).unwrap();
    assert_eq!(replayed.len(), 0);
}
