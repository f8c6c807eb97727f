use market_engine::endpoints::EndpointRegistry;
use market_engine::engine::{MarketEngine, QueryOutcome};
use market_engine::network::pick_gateway;
use market_engine::types::{build_demand, MarketError, Pair, Payload, Role};

#[test]
fn endpoint_registry_hands_out_fresh_ids() {
    let mut reg = EndpointRegistry::new();
    let a = reg.subscribe("/local/appkey/listener-1".to_string());
    let b = reg.subscribe("/local/appkey/listener-2".to_string());
    assert_eq!(a, 0);
    assert_eq!(b, 1);
    assert_eq!(
        reg.destinations(),
        vec!["/local/appkey/listener-1".to_string(), "/local/appkey/listener-2".to_string()]
    );
}

#[test]
fn build_demand_lists_node_and_capacity() {
    let d = build_demand("test1");
    let props: Vec<(String, String)> =
        d.properties.iter().map(|p| (p.key.clone(), p.value.clone())).collect();
    let cons: Vec<(String, String)> =
        d.constraints.iter().map(|p| (p.key.clone(), p.value.clone())).collect();
    assert_eq!(
        props,
        vec![
            ("golem.node.id.name".to_string(), "test1".to_string()),
            ("golem.node.ala".to_string(), "1".to_string()),
        ]
    );
    assert_eq!(
        cons,
        vec![
            ("golem.inf.mem.gib".to_string(), "0.5".to_string()),
            ("golem.inf.storage.gib".to_string(), "1".to_string()),
        ]
    );
}

#[test]
fn active_lists_one_role_in_registration_order() {
    let mut engine = MarketEngine::new();
    let o1 = engine.subscribe(
        Payload { properties: vec![], constraints: vec![] },
        Role::Provider,
        "b".to_string(),
        1,
    );
    let d1 = engine.subscribe(
        Payload { properties: vec![], constraints: vec![] },
        Role::Requestor,
        "a".to_string(),
        2,
    );
    let o2 = engine.subscribe(
        Payload { properties: vec![], constraints: vec![] },
        Role::Provider,
        "c".to_string(),
        3,
    );
    let offers: Vec<u64> = engine.active(Role::Provider).iter().map(|s| s.id).collect();
    let demands: Vec<u64> = engine.active(Role::Requestor).iter().map(|s| s.id).collect();
    assert_eq!(offers, vec![o1, o2]);
    assert_eq!(demands, vec![d1]);
}

#[test]
fn get_subscription_round_trip() {
    let mut engine = MarketEngine::new();
    let id = engine.subscribe(
        Payload {
            properties: vec![Pair { key: "runtime".to_string(), value: "wasm".to_string() }],
            constraints: vec![],
        },
        Role::Provider,
        "node-b".to_string(),
        42,
    );
    let sub = engine.get_subscription(id).unwrap();
    assert_eq!(sub.id, id);
    assert_eq!(sub.node, "node-b");
    assert_eq!(sub.role, Role::Provider);
    assert_eq!(sub.created, 42);
    assert!(matches!(engine.get_subscription(id + 1), Err(MarketError::NotFound)));
}

#[test]
fn notify_queues_an_event_for_the_owner() {
    let mut engine = MarketEngine::new();
    let offer = engine.subscribe(
        Payload { properties: vec![], constraints: vec![] },
        Role::Provider,
        "node-b".to_string(),
        1,
    );
    let demand = engine.subscribe(
        Payload { properties: vec![], constraints: vec![] },
        Role::Requestor,
        "node-a".to_string(),
        2,
    );
    // The empty payloads match mutually, so each side already has one event;
    // drain the demand side, then push another snapshot by hand.
    let first = match engine.query_step(demand, 10, false, true) {
        Ok(QueryOutcome::Events(v)) => v,
        other => panic!("expected events, got {:?}", other),
    };
    assert_eq!(first.len(), 1);
    let snapshot = first[0].proposal.clone();
    assert!(matches!(engine.notify(999, snapshot.clone(), 7), Err(MarketError::NotFound)));
    engine.notify(demand, snapshot, 7).unwrap();
    let second = match engine.query_step(demand, 10, false, true) {
        Ok(QueryOutcome::Events(v)) => v,
        other => panic!("expected events, got {:?}", other),
    };
    assert_eq!(second.len(), 1);
    assert_eq!(second[0].created, 7);
    assert!(second[0].seq > first[0].seq);
    let _ = offer;
}

#[test]
fn pick_gateway_skips_the_network_address() {
    // 10.0.0.0/30: the network address first, then the hosts.
    let addr = u32::from_be_bytes([10, 0, 0, 1]);
    let hosts =
        vec![addr, u32::from_be_bytes([10, 0, 0, 2]), u32::from_be_bytes([10, 0, 0, 3])];
    assert_eq!(pick_gateway(&hosts, addr), Some(u32::from_be_bytes([10, 0, 0, 2])));
    assert_eq!(pick_gateway(&vec![addr, addr], addr), None);
    assert_eq!(pick_gateway(&Vec::new(), addr), None);
}
