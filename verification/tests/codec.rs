use atomic_mesh::codec::{decode, encode};
use atomic_mesh::event::{
    Event, EventPayload, OrderAckEvent, OrderBookUpdateEvent, SignalEvent,
};
use atomic_mesh::execution::{LiveOrder, OrderState};
use atomic_mesh::node::NodeRole;
use atomic_mesh::protocol::{announced_len, to_stream, MeshMessage};
use atomic_mesh::snapshot::{DeltaSnapshot, EngineSnapshot};
use atomic_mesh::types::{
    Level, OrderId, OrderType, Price, Qty, Side, Symbol, TimeInForce, Venue,
};

fn ack() -> Event {
    Event::new(
        7,
        8,
        [9u8; 32],
        EventPayload::OrderAck(OrderAckEvent {
            order_id: OrderId("binance-1".to_string()),
            exchange_order_id: "EX".to_string(),
            venue: Venue::OKX,
        }),
    )
}

#[test]
fn events_have_the_layout_of_bincode() {
    let expected = bincode::serialize(&(
        7u64,
        8u64,
        [9u8; 32],
        4u32,
        "binance-1",
        "EX",
        2u32,
    ))
    .unwrap();
    assert_eq!(encode(&ack()), expected);
}

#[test]
fn book_updates_have_the_layout_of_bincode() {
    let event = Event::new(
        1,
        2,
        [0u8; 32],
        EventPayload::OrderBookUpdate(OrderBookUpdateEvent {
            symbol: Symbol::new("BTC", "USDT", Venue::Bybit),
            bids: vec![Level { price: Price(-5), qty: Qty(6) }],
            asks: vec![],
            is_snapshot: true,
            exchange_ts: 3,
        }),
    );
    let expected = bincode::serialize(&(
        1u64,
        2u64,
        [0u8; 32],
        0u32,
        ("BTC", "USDT", 1u32),
        vec![(-5i64, 6u64)],
        Vec::<(i64, u64)>::new(),
        true,
        3u64,
    ))
    .unwrap();
    assert_eq!(encode(&event), expected);
    let back: Event = decode(&expected).unwrap();
    assert_eq!(encode(&back), expected);
}

#[test]
fn signals_keep_the_bits_of_their_strength() {
    let event = Event::new(
        1,
        2,
        [0u8; 32],
        EventPayload::Signal(SignalEvent {
            strategy_id: "s".to_string(),
            symbol: Symbol::new("BTC", "USDT", Venue::Binance),
            side: Side::Sell,
            strength_bits: 0.25f64.to_bits(),
            metadata: "m".to_string(),
        }),
    );
    let expected = bincode::serialize(&(
        1u64,
        2u64,
        [0u8; 32],
        13u32,
        "s",
        ("BTC", "USDT", 0u32),
        1u32,
        0.25f64,
        "m",
    ))
    .unwrap();
    assert_eq!(encode(&event), expected);
}

#[test]
fn live_orders_round_trip() {
    let mut order = LiveOrder::new(
        OrderId("a".to_string()),
        Symbol::new("BTC", "USDT", Venue::Binance),
        Side::Sell,
        OrderType::StopLimit,
        Price(3),
        Qty(4),
        TimeInForce::FillOrKill,
        Venue::Kraken,
        5,
    );
    order.exchange_order_id = Some("EX".to_string());
    let bytes = encode(&order);
    let back: LiveOrder = decode(&bytes).unwrap();
    assert_eq!(encode(&back), bytes);
    assert_eq!(back.state, OrderState::New);
    assert_eq!(back.exchange_order_id, Some("EX".to_string()));
}

#[test]
fn truncated_bytes_are_refused() {
    let bytes = encode(&ack());
    for n in 0..bytes.len() {
        assert!(decode::<Event>(&bytes[..n]).is_err());
    }
    let mut longer = bytes.clone();
    longer.push(0);
    assert!(decode::<Event>(&longer).is_ok());
}

#[test]
fn unknown_variants_are_refused() {
    let bytes = bincode::serialize(&(7u64, 8u64, [9u8; 32], 14u32, "x")).unwrap();
    assert!(decode::<Event>(&bytes).is_err());
    assert!(decode::<String>(&[1, 0, 0, 0, 0, 0, 0, 0, 0xff]).is_err());
    assert!(decode::<Option<u64>>(&[2]).is_err());
    assert!(decode::<bool>(&[2]).is_err());
}

#[test]
fn mesh_messages_have_the_layout_of_bincode() {
    let heartbeat = MeshMessage::Heartbeat {
        node_id: [1u8; 32],
        last_seq: 2,
        state_hash: [3u8; 8],
        uptime_secs: 4,
    };
    assert_eq!(
        heartbeat.encode(),
        bincode::serialize(&(2u32, [1u8; 32], 2u64, [3u8; 8], 4u64)).unwrap()
    );
    let announce = MeshMessage::NodeAnnounce {
        node_id: [5u8; 32],
        role: NodeRole::Observer,
        addr: "host:1".to_string(),
    };
    assert_eq!(
        announce.encode(),
        bincode::serialize(&(8u32, [5u8; 32], 2u32, "host:1")).unwrap()
    );
}

#[test]
fn mesh_messages_round_trip() {
    let messages = vec![
        (MeshMessage::EventReplication(ack()), "event_replication"),
        (MeshMessage::EventBatch(vec![ack(), ack()]), "event_batch"),
        (
            MeshMessage::SyncRequest { from_seq: 1, to_seq: 2 },
            "sync_request",
        ),
        (
            MeshMessage::SyncResponse { events: vec![ack()] },
            "sync_response",
        ),
        (
            MeshMessage::SnapshotBroadcast(EngineSnapshot {
                seq: 1,
                timestamp: 2,
                state_hash: [3u8; 8],
                events_since_last: 4,
                state_data: vec![5, 6],
            }),
            "snapshot_broadcast",
        ),
        (
            MeshMessage::HashVerify { seq: 1, hash: [2u8; 8] },
            "hash_verify",
        ),
        (
            MeshMessage::ConsensusVote {
                proposal_seq: 1,
                node_id: [2u8; 32],
                approved: true,
            },
            "consensus_vote",
        ),
    ];
    for (message, name) in messages {
        assert_eq!(message.kind_name(), name);
        let bytes = message.encode();
        let back = MeshMessage::decode(&bytes).unwrap();
        assert_eq!(back.encode(), bytes);
        assert_eq!(back.kind_name(), name);
    }
    assert!(MeshMessage::decode(&[9, 0, 0, 0]).is_err());
}

#[test]
fn streams_announce_their_length() {
    let message = MeshMessage::SyncRequest { from_seq: 1, to_seq: 2 };
    let stream = to_stream(&message);
    let head = [stream[0], stream[1], stream[2], stream[3]];
    assert_eq!(announced_len(&head), Some(20));
    assert_eq!(&stream[4..], &message.encode()[..]);
    assert_eq!(announced_len(&[0, 0, 0, 1]), Some(16 * 1024 * 1024));
    assert_eq!(announced_len(&[1, 0, 0, 1]), None);
}

#[test]
fn snapshots_are_hashed() {
    let data = vec![1u8, 2, 3];
    let hash = EngineSnapshot::compute_hash(&data);
    assert_eq!(hash, xxhash_rust::xxh3::xxh3_64(&data).to_le_bytes());
    let snapshot = EngineSnapshot {
        seq: 1,
        timestamp: 2,
        state_hash: hash,
        events_since_last: 0,
        state_data: data,
    };
    assert!(snapshot.verify());
    assert!(snapshot.hashes_match(&snapshot.clone()));
    assert_eq!(snapshot.hash_hex(), hex::encode(hash));
}

#[test]
fn delta_chains_have_no_gap() {
    let delta = |base: u64, target: u64| DeltaSnapshot {
        base_seq: base,
        current_seq: target,
        delta_data: Vec::new(),
        result_hash: [0u8; 8],
    };
    assert!(DeltaSnapshot::verify_chain(
        [0u8; 8],
        &[delta(1, 5), delta(5, 9)]
    ));
    assert!(!DeltaSnapshot::verify_chain(
        [0u8; 8],
        &[delta(1, 5), delta(6, 9)]
    ));
}
