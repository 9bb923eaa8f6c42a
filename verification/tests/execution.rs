use atomic_mesh::event::{
    Event, EventPayload, OrderAckEvent, OrderCancelEvent, OrderFillEvent, OrderNewEvent,
    OrderRejectEvent,
};
use atomic_mesh::execution::{ExecutionEngine, LiveOrder, OrderState, StateVerifier};
use atomic_mesh::types::{
    OrderId, OrderType, Price, Qty, Side, Symbol, TimeInForce, Venue,
};

fn order(id: OrderId) -> LiveOrder {
    LiveOrder::new(
        id,
        Symbol::new("BTC", "USDT", Venue::Binance),
        Side::Buy,
        OrderType::Limit,
        Price(60000),
        Qty(100),
        TimeInForce::GoodTilCancel,
        Venue::Binance,
        1000,
    )
}

fn event(seq: u64, payload: EventPayload) -> Event {
    Event::new(seq, 1000 + seq, [0u8; 32], payload)
}

fn new_order(seq: u64, id: &str) -> Event {
    event(
        seq,
        EventPayload::OrderNew(OrderNewEvent {
            order_id: OrderId(id.to_string()),
            symbol: Symbol::new("BTC", "USDT", Venue::Binance),
            side: Side::Buy,
            order_type: OrderType::Limit,
            price: Price(60000),
            qty: Qty(100),
            time_in_force: TimeInForce::GoodTilCancel,
            venue: Venue::Binance,
        }),
    )
}

fn ack(seq: u64, id: &str) -> Event {
    event(
        seq,
        EventPayload::OrderAck(OrderAckEvent {
            order_id: OrderId(id.to_string()),
            exchange_order_id: "EX".to_string(),
            venue: Venue::Binance,
        }),
    )
}

fn fill(seq: u64, id: &str, qty: u64) -> Event {
    event(
        seq,
        EventPayload::OrderPartialFill(OrderFillEvent {
            order_id: OrderId(id.to_string()),
            symbol: Symbol::new("BTC", "USDT", Venue::Binance),
            side: Side::Buy,
            price: Price(60000),
            qty: Qty(qty),
            remaining: Qty(0),
            fee: 0,
            is_maker: false,
            venue: Venue::Binance,
        }),
    )
}

#[test]
fn order_lifecycle_happy_path() {
    let mut engine = ExecutionEngine::new();
    let oid = engine.next_order_id(Venue::Binance);
    let order = LiveOrder::new(
        oid.clone(),
        Symbol::new("BTC", "USDT", Venue::Binance),
        Side::Buy,
        OrderType::Limit,
        Price(60000),
        Qty(100),
        TimeInForce::GoodTilCancel,
        Venue::Binance,
        1000,
    );

    engine.register_order(order).unwrap();
    engine.on_ack(&oid.0, "EX123".into(), 1001).unwrap();
    let complete = engine.on_fill(&oid.0, Qty(50), Price(60000), 1002).unwrap();
    assert!(!complete);
    assert_eq!(engine.get_order(&oid.0).unwrap().state, OrderState::PartialFill);

    let complete = engine.on_fill(&oid.0, Qty(50), Price(60000), 1003).unwrap();
    assert!(complete);
    assert_eq!(engine.get_order(&oid.0).unwrap().state, OrderState::Filled);
}

#[test]
fn invalid_transition_rejected() {
    let mut engine = ExecutionEngine::new();
    let oid = engine.next_order_id(Venue::Binance);
    let order = LiveOrder::new(
        oid.clone(),
        Symbol::new("BTC", "USDT", Venue::Binance),
        Side::Buy,
        OrderType::Limit,
        Price(60000),
        Qty(100),
        TimeInForce::GoodTilCancel,
        Venue::Binance,
        1000,
    );

    engine.register_order(order).unwrap();
    assert!(engine.on_fill(&oid.0, Qty(50), Price(60000), 1001).is_err());
}

#[test]
fn stale_order_detection() {
    let mut engine = ExecutionEngine::new();
    let oid = engine.next_order_id(Venue::Binance);
    let order = LiveOrder::new(
        oid.clone(),
        Symbol::new("BTC", "USDT", Venue::Binance),
        Side::Buy,
        OrderType::Limit,
        Price(60000),
        Qty(100),
        TimeInForce::GoodTilCancel,
        Venue::Binance,
        1000,
    );
    engine.register_order(order).unwrap();
    engine.on_ack(&oid.0, "EX1".into(), 2000).unwrap();

    let stale = engine.stale_order_ids(5000, 10_000);
    assert!(stale.is_empty());

    let stale = engine.stale_order_ids(13_000, 10_000);
    assert_eq!(stale.len(), 1);
    assert_eq!(stale[0], oid);

    engine.on_fill(&oid.0, Qty(100), Price(60000), 15_000).unwrap();
    let stale = engine.stale_order_ids(100_000, 10_000);
    assert!(stale.is_empty());
}

#[test]
fn errors_name_the_transition() {
    let mut engine = ExecutionEngine::new();
    let id = engine.next_order_id(Venue::Binance);
    assert_eq!(id.0, "binance-1");
    engine.register_order(order(id.clone())).unwrap();
    assert_eq!(
        engine.register_order(order(id.clone())).unwrap_err(),
        "order already exists: binance-1"
    );
    assert_eq!(
        engine.on_fill(&id.0, Qty(1), Price(1), 5).unwrap_err(),
        "invalid transition: New -> PartialFill"
    );
    assert_eq!(engine.on_cancel("nope", 5).unwrap_err(), "order not found");
    engine.on_reject(&id.0, 6).unwrap();
    assert_eq!(
        engine.on_ack(&id.0, "EX".into(), 7).unwrap_err(),
        "invalid transition: Rejected -> Ack"
    );
}

#[test]
fn terminal_orders_are_left_alone_and_collected() {
    let mut engine = ExecutionEngine::new();
    for e in [
        new_order(1, "a"),
        ack(2, "a"),
        fill(3, "a", 100),
        new_order(4, "b"),
    ] {
        assert_eq!(engine.process_event(&e), Ok(true));
    }
    assert!(engine.process_event(&fill(5, "a", 1)).is_err());
    assert_eq!(engine.get_order("a").unwrap().filled_qty, Qty(100));
    assert_eq!(engine.open_order_ids(), vec![OrderId("b".to_string())]);
    assert_eq!(engine.open_orders().len(), 1);
    assert_eq!(engine.gc_terminal(), 1);
    assert!(engine.get_order("a").is_none());
    assert_eq!(engine.all_orders().len(), 1);
}

#[test]
fn cancels_and_rejects_end_orders() {
    let mut engine = ExecutionEngine::new();
    engine.process_event(&new_order(1, "a")).unwrap();
    engine.process_event(&new_order(2, "b")).unwrap();
    engine.process_event(&ack(3, "a")).unwrap();
    engine
        .process_event(&event(
            4,
            EventPayload::OrderCancel(OrderCancelEvent {
                order_id: OrderId("a".to_string()),
                reason: "x".to_string(),
                venue: Venue::Binance,
            }),
        ))
        .unwrap();
    engine
        .process_event(&event(
            5,
            EventPayload::OrderReject(OrderRejectEvent {
                order_id: OrderId("b".to_string()),
                reason: "x".to_string(),
                venue: Venue::Binance,
            }),
        ))
        .unwrap();
    assert_eq!(engine.get_order("a").unwrap().state, OrderState::Canceled);
    assert_eq!(engine.get_order("b").unwrap().state, OrderState::Rejected);
    assert!(engine.open_order_ids().is_empty());
}

#[test]
fn fills_beyond_the_range_are_seen_coming() {
    let mut engine = ExecutionEngine::new();
    engine.process_event(&new_order(1, "a")).unwrap();
    engine.process_event(&ack(2, "a")).unwrap();
    engine.process_event(&fill(3, "a", 50)).unwrap();
    assert!(engine.can_apply(&fill(4, "a", u64::MAX - 50)));
    assert!(!engine.can_apply(&fill(4, "a", u64::MAX - 49)));
    assert!(engine.can_apply(&fill(4, "other", u64::MAX)));
}

#[test]
fn state_hash_is_the_hash_of_the_state_bytes() {
    let mut engine = ExecutionEngine::new();
    let empty = engine.state_hash();
    assert_eq!(
        empty,
        xxhash_rust::xxh3::xxh3_64(&engine.serialize_state()).to_le_bytes()
    );
    engine.process_event(&new_order(1, "a")).unwrap();
    assert_ne!(engine.state_hash(), empty);
}

#[test]
fn state_bytes_list_orders_by_id() {
    let mut a = ExecutionEngine::new();
    let mut b = ExecutionEngine::new();
    for id in ["x", "y", "z"] {
        a.process_event(&Event { seq: 1, ..new_order(1, id) }).unwrap();
    }
    for id in ["z", "x", "y"] {
        b.process_event(&Event { seq: 1, ..new_order(1, id) }).unwrap();
    }
    assert_eq!(a.serialize_state(), b.serialize_state());
    assert_eq!(a.state_hash(), b.state_hash());
}

#[test]
fn damaged_snapshots_are_refused() {
    let mut engine = ExecutionEngine::new();
    engine.process_event(&new_order(1, "a")).unwrap();
    let mut snapshot = engine.snapshot(1, 2);
    assert!(snapshot.verify());
    snapshot.state_data[0] ^= 1;
    let mut other = ExecutionEngine::new();
    assert_eq!(
        other.restore(&snapshot).unwrap_err(),
        "snapshot hash verification failed"
    );
    snapshot.state_data = vec![1, 2, 3];
    snapshot.state_hash =
        atomic_mesh::snapshot::EngineSnapshot::compute_hash(&snapshot.state_data);
    assert!(other
        .restore(&snapshot)
        .unwrap_err()
        .starts_with("failed to deserialize snapshot: "));
    assert_eq!(other.all_orders().len(), 0);
}

#[test]
fn verifier_asks_every_interval() {
    let mut verifier = StateVerifier::new(3);
    assert!(!verifier.tick());
    assert!(!verifier.tick());
    assert!(verifier.tick());
    verifier.on_verified(9, [7u8; 8]);
    assert!(!verifier.tick());
    assert_eq!(verifier.last_seq(), 9);
    assert_eq!(verifier.last_hash(), [7u8; 8]);
    assert!(verifier.verify_peer(9, [7u8; 8]));
    assert!(!verifier.verify_peer(9, [8u8; 8]));
    assert!(verifier.verify_peer(10, [8u8; 8]));
}

#[test]
fn local_ids_count_up() {
    let mut engine = ExecutionEngine::new();
    assert_eq!(engine.next_local_id(), 1);
    engine.next_order_id(Venue::Binance);
    assert_eq!(engine.next_local_id(), 2);
    assert!(StateVerifier::new(3).can_tick());
}
