use market_engine::engine::{MarketEngine, QueryOutcome};
use market_engine::types::{Event, MarketError, Pair, Payload, ProposalId, ProposalState, Role};

fn pair(k: &str, v: &str) -> Pair {
    Pair { key: k.to_string(), value: v.to_string() }
}

fn demand_payload() -> Payload {
    Payload {
        properties: vec![pair("node.id.name", "test1")],
        constraints: vec![pair("runtime", "wasm")],
    }
}

fn offer_payload() -> Payload {
    Payload {
        properties: vec![pair("runtime", "wasm")],
        constraints: vec![pair("node.id.name", "test1")],
    }
}

fn poll(e: &mut MarketEngine, sub: u64, max: i32) -> Result<Vec<Event>, MarketError> {
    match e.query_step(sub, max, false, true) {
        Ok(QueryOutcome::Events(v)) => Ok(v),
        Ok(QueryOutcome::Wait) => panic!("a query with an expired timeout must not wait"),
        Err(err) => Err(err),
    }
}

#[test]
fn test_get_proposal() {
    let mut engine = MarketEngine::new();
    let provider = "Provider1".to_string();
    let requestor = "Requestor1".to_string();
    let offer = engine.subscribe(offer_payload(), Role::Provider, provider.clone(), 1);
    let demand = engine.subscribe(demand_payload(), Role::Requestor, requestor.clone(), 2);

    let events = poll(&mut engine, demand, 5).unwrap();
    assert_eq!(events.len(), 1);
    let initial_id = events[0].proposal.id;

    // Both mirrored copies of the Initial round are addressable, each under
    // its own role tag, and agree on everything but that tag.
    let requestor_copy = engine.get_proposal(initial_id).unwrap();
    let provider_copy = engine.get_proposal(initial_id.translate(Role::Provider)).unwrap();
    assert_eq!(requestor_copy.id.correlation, provider_copy.id.correlation);
    assert_eq!(requestor_copy.id.role, Role::Requestor);
    assert_eq!(provider_copy.id.role, Role::Provider);
    assert_eq!(requestor_copy.state, ProposalState::Initial);
    assert_eq!(provider_copy.state, ProposalState::Initial);
    assert_eq!(requestor_copy.sub_id, demand);
    assert_eq!(provider_copy.sub_id, offer);

    // After one counter, the chain of the Draft runs from the Initial round
    // to the Draft.
    let (draft_id, _transfer) = engine
        .counter_proposal(demand, initial_id, demand_payload(), &requestor, 3)
        .unwrap();
    let chain = engine.chain(draft_id).unwrap();
    assert_eq!(chain.len(), 2);
    assert_eq!(chain[0].id, initial_id);
    assert!(chain[0].prev.is_none());
    assert_eq!(chain[1].id, draft_id);
    assert_eq!(chain[1].prev, Some(initial_id));
}

#[test]
fn test_get_proposal_not_found() {
    let mut engine = MarketEngine::new();
    engine.subscribe(offer_payload(), Role::Provider, "Provider1".to_string(), 1);
    engine.subscribe(demand_payload(), Role::Requestor, "Requestor1".to_string(), 2);

    // An id never issued — the provider-side round 3 — resolves to nothing.
    let unknown = ProposalId { role: Role::Provider, correlation: 3 };
    assert!(matches!(engine.get_proposal(unknown), Err(MarketError::NotFound)));
    assert!(matches!(engine.chain(unknown), Err(MarketError::NotFound)));
}

#[test]
fn test_proposal_random_shuffle() {
    // Ten offers published in a fixed order all match one demand; the batch
    // a query returns must not leak that order. One run can land on the
    // publication order by chance (at odds of one to 10 factorial), so the
    // test bounds how often that may happen: over 200 runs, at most a tenth
    // may come back in publication order.
    let runs = 200;
    let mut in_publication_order = 0;
    for _ in 0..runs {
        let mut engine = MarketEngine::new();
        for i in 0..10u64 {
            engine.subscribe(offer_payload(), Role::Provider, format!("Provider-{}", i), i);
        }
        let demand =
            engine.subscribe(demand_payload(), Role::Requestor, "Node-1".to_string(), 99);
        let events = poll(&mut engine, demand, 100).unwrap();
        assert_eq!(events.len(), 10);
        let correlations: Vec<u64> = events.iter().map(|e| e.proposal.id.correlation).collect();
        let mut sorted = correlations.clone();
        sorted.sort();
        assert_eq!(sorted, (0..10u64).collect::<Vec<_>>());
        if correlations == sorted {
            in_publication_order += 1;
        }
    }
    assert!(
        in_publication_order <= runs / 10,
        "delivery order tracked publication order in {} of {} runs",
        in_publication_order,
        runs
    );
}
