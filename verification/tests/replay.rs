use atomic_mesh::event::{
    Event, EventPayload, OrderAckEvent, OrderFillEvent, OrderNewEvent,
};
use atomic_mesh::execution::{ExecutionEngine, StateVerifier};
use atomic_mesh::log::{select_range, EventLog, LogError};
use atomic_mesh::market_maker::MarketMaker;
use atomic_mesh::metrics::PipelineMetrics;
use atomic_mesh::player::{ReplayPlayer, ReplaySpeed};
use atomic_mesh::recovery::{EventDeduplicator, RecoveryCoordinator, RecoveryError};
use atomic_mesh::replay::{replay_plan, restore_snapshot, run_replay};
use atomic_mesh::strategy::StrategyEngine;
use atomic_mesh::types::{
    OrderId, OrderType, Price, Qty, Side, Symbol, TimeInForce, Venue,
};

fn make_events() -> Vec<Event> {
    let source = [0u8; 32];
    let sym = Symbol::new("BTC", "USDT", Venue::Simulated);
    let oid = OrderId::new(Venue::Simulated, 1);

    vec![
        Event::new(
            1,
            1000,
            source,
            EventPayload::OrderNew(OrderNewEvent {
                order_id: oid.clone(),
                symbol: sym.clone(),
                side: Side::Buy,
                order_type: OrderType::Limit,
                price: Price(60000),
                qty: Qty(100),
                time_in_force: TimeInForce::GoodTilCancel,
                venue: Venue::Simulated,
            }),
        ),
        Event::new(
            2,
            1001,
            source,
            EventPayload::OrderAck(OrderAckEvent {
                order_id: oid.clone(),
                exchange_order_id: "SIM-1".to_string(),
                venue: Venue::Simulated,
            }),
        ),
        Event::new(
            3,
            1002,
            source,
            EventPayload::OrderFill(OrderFillEvent {
                order_id: oid.clone(),
                symbol: sym.clone(),
                side: Side::Buy,
                price: Price(60000),
                qty: Qty(50),
                remaining: Qty(50),
                fee: 3,
                is_maker: false,
                venue: Venue::Simulated,
            }),
        ),
        Event::new(
            4,
            1003,
            source,
            EventPayload::OrderFill(OrderFillEvent {
                order_id: oid.clone(),
                symbol: sym.clone(),
                side: Side::Buy,
                price: Price(60000),
                qty: Qty(50),
                remaining: Qty(0),
                fee: 3,
                is_maker: false,
                venue: Venue::Simulated,
            }),
        ),
    ]
}

fn at(seq: u64) -> Event {
    let mut e = make_events().remove(1);
    e.seq = seq;
    e
}

fn log_bytes(events: &[Event]) -> Vec<u8> {
    let mut log = EventLog::open("x.log");
    for e in events {
        log.append(e).unwrap();
    }
    log.flush()
}

fn strategies() -> StrategyEngine<MarketMaker> {
    StrategyEngine::new()
}

#[test]
fn replay_determinism_same_events_same_hash() {
    let events = make_events();

    let mut player1 = ReplayPlayer::from_events(events.clone());
    let mut exec1 = ExecutionEngine::new();
    while let Some(event) = player1.next() {
        let _ = exec1.process_event(event);
    }
    let hash1 = exec1.state_hash();

    let mut player2 = ReplayPlayer::from_events(events);
    let mut exec2 = ExecutionEngine::new();
    while let Some(event) = player2.next() {
        let _ = exec2.process_event(event);
    }
    let hash2 = exec2.state_hash();

    assert_eq!(
        hash1, hash2,
        "Replay must be deterministic: same events must produce identical state hash"
    );
}

#[test]
fn replay_snapshot_restore_same_hash() {
    let events = make_events();

    let mut player = ReplayPlayer::from_events(events.clone());
    let mut exec = ExecutionEngine::new();
    while let Some(event) = player.next() {
        let _ = exec.process_event(event);
    }
    let original_hash = exec.state_hash();

    let snapshot = exec.snapshot(4, 1003);
    let mut exec2 = ExecutionEngine::new();
    exec2.restore(&snapshot).unwrap();
    let restored_hash = exec2.state_hash();

    assert_eq!(
        original_hash, restored_hash,
        "Snapshot restore must produce identical state hash"
    );
}

#[test]
fn deduplicator_rejects_duplicates() {
    let mut dedup = EventDeduplicator::new();
    assert!(dedup.check(1));
    assert!(dedup.check(2));
    assert!(dedup.check(3));
    assert!(!dedup.check(1));
    assert!(!dedup.check(2));
    assert!(dedup.check(4));
}

#[test]
fn deduplicator_takes_each_number_once_in_any_order() {
    let mut dedup = EventDeduplicator::new();
    let seqs = [5u64, 2, 0, 5, 9, 2, 0, 3, 9];
    let fresh: Vec<bool> = seqs.iter().map(|seq| dedup.check(*seq)).collect();
    assert_eq!(fresh, vec![true, true, true, false, true, false, false, true, false]);
    assert_eq!(dedup.max_seen(), 9);
}

#[test]
fn recovery_plan_cold_start() {
    let coord =
        RecoveryCoordinator::new("/tmp/nonexistent_atomic_test", "/tmp/nonexistent.log");
    let plan = coord.plan_recovery(None, None).unwrap();
    assert!(plan.snapshot.is_none());
    assert!(plan.events_to_replay.is_empty());
    assert!(!plan.need_peer_sync);
    assert_eq!(plan.expected_next_seq, 1);
}

#[test]
fn deduplicator_forgets_what_is_far_behind() {
    let mut dedup = EventDeduplicator::from_seq(10);
    assert_eq!(dedup.max_seen(), 10);
    assert!(dedup.check(5));
    assert!(!dedup.check(5));
    for seq in 11..=100_010u64 {
        assert!(dedup.check(seq));
    }
    assert!(!dedup.check(100_010));
    assert!(!dedup.check(50_011));
    assert!(dedup.check(50_010));
    assert_eq!(dedup.max_seen(), 100_010);
}

#[test]
fn log_round_trip_ignores_a_cut_length() {
    let events = make_events();
    let mut bytes = log_bytes(&events);
    let first = &bytes[..4];
    let n = u32::from_le_bytes([first[0], first[1], first[2], first[3]]) as usize;
    assert!(n > 0);
    bytes.extend_from_slice(&[1, 0, 0]);
    let read = EventLog::read_all(&bytes).unwrap();
    assert_eq!(read.len(), 4);
    assert_eq!(log_bytes(&read), bytes[..bytes.len() - 3]);
    assert_eq!(EventLog::read_range(&bytes, 2, 3).unwrap().len(), 2);
    assert_eq!(select_range(&events, 4, 9).len(), 1);
}

#[test]
fn damaged_logs_are_errors() {
    let bytes = log_bytes(&make_events());
    assert!(matches!(
        EventLog::read_all(&bytes[..bytes.len() - 1]),
        Err(LogError::UnexpectedEof)
    ));
    assert!(matches!(
        EventLog::read_all(&[2, 0, 0, 0, 9, 9]),
        Err(LogError::InvalidData(_))
    ));
}

#[test]
fn read_only_logs_take_nothing() {
    let mut log = EventLog::read_only("x.log");
    assert_eq!(log.append(&at(1)).unwrap_err(), "log is read-only");
    assert_eq!(log.event_count(), 0);
    assert_eq!(log.pending_len(), 0);
    assert_eq!(log.path(), "x.log");
}

#[test]
fn player_seeks_and_counts() {
    let mut player = ReplayPlayer::from_events(make_events());
    player.set_speed(ReplaySpeed::RealTime);
    player.seek_to_seq(3);
    assert_eq!(player.next().unwrap().seq, 3);
    assert_eq!(player.peek().unwrap().seq, 4);
    assert_eq!(player.total_events(), 4);
    player.next();
    assert!(player.is_done());
    assert!(player.next().is_none());
    player.reset();
    assert_eq!(player.peek().unwrap().seq, 1);
}

#[test]
fn plan_replays_what_the_snapshot_does_not_cover() {
    let mut engine = ExecutionEngine::new();
    for e in &make_events()[..2] {
        engine.process_event(e).unwrap();
    }
    let snapshot = engine.snapshot(2, 1001);
    let coord = RecoveryCoordinator::new("dir", "log");
    let (data, (numbered_tmp, numbered), (latest_tmp, latest)) = coord.save_snapshot(&snapshot);
    assert_eq!(numbered, "dir/snapshot_2.bin");
    assert_eq!(numbered_tmp, "dir/snapshot_2.bin.tmp");
    assert_eq!(latest, "dir/snapshot_latest.bin");
    assert_eq!(latest_tmp, "dir/snapshot_latest.bin.tmp");
    assert_eq!(
        data,
        bincode::serialize(&(
            2u64,
            1001u64,
            snapshot.state_hash,
            snapshot.events_since_last,
            &snapshot.state_data
        ))
        .unwrap()
    );

    let plan = coord
        .plan_recovery(Some(data), Some(log_bytes(&make_events())))
        .unwrap();
    assert!(plan.snapshot.is_some());
    assert_eq!(plan.events_to_replay.len(), 2);
    assert!(!plan.need_peer_sync);
    assert_eq!(plan.expected_next_seq, 5);

    let mut recovered = ExecutionEngine::new();
    let mut verifier = StateVerifier::new(1);
    let mut total_events: u64 = 0;
    restore_snapshot(&plan.snapshot.unwrap(), &mut recovered, &mut verifier).unwrap();
    assert_eq!(verifier.last_seq(), 2);
    let done = replay_plan(
        &plan.events_to_replay,
        2,
        &mut recovered,
        &mut strategies(),
        &mut verifier,
        &mut total_events,
    );
    assert_eq!(done, 2);
    assert_eq!(total_events, 2);
    for e in &make_events()[2..] {
        engine.process_event(e).unwrap();
    }
    assert_eq!(recovered.state_hash(), engine.state_hash());
    assert_eq!(verifier.last_hash(), engine.state_hash());
    assert_eq!(verifier.last_seq(), 4);
}

#[test]
fn plans_see_gaps() {
    let coord = RecoveryCoordinator::new("dir", "log");
    let plan = coord
        .plan_recovery(None, Some(log_bytes(&[at(3), at(4)])))
        .unwrap();
    assert!(plan.need_peer_sync);
    assert_eq!(plan.sync_from_seq, 1);
    assert_eq!(plan.expected_next_seq, 5);

    let plan = coord
        .plan_recovery(None, Some(log_bytes(&[at(1), at(2), at(5), at(9)])))
        .unwrap();
    assert!(plan.need_peer_sync);
    assert_eq!(plan.sync_from_seq, 3);
    assert_eq!(plan.expected_next_seq, 10);
}

#[test]
fn recovery_errors_are_told_apart() {
    let coord = RecoveryCoordinator::new("dir", "log");
    assert_eq!(coord.event_log_path(), "log");
    assert_eq!(coord.snapshot_dir(), "dir");
    assert!(matches!(
        coord.plan_recovery(Some(vec![1]), None),
        Err(RecoveryError::InvalidSnapshot(_))
    ));
    let mut snapshot = ExecutionEngine::new().snapshot(1, 1);
    snapshot.state_hash[0] ^= 1;
    let (data, _, _) = coord.save_snapshot(&snapshot);
    let error = coord.plan_recovery(Some(data), None).unwrap_err();
    assert_eq!(error.to_text(), "snapshot hash verification failed");
    assert!(matches!(error, RecoveryError::HashMismatch));
    assert!(matches!(
        coord.plan_recovery(None, Some(vec![9, 0, 0, 0])),
        Err(RecoveryError::Log(LogError::UnexpectedEof))
    ));
    assert!(matches!(
        coord.plan_recovery(None, Some(log_bytes(&[at(u64::MAX)]))),
        Err(RecoveryError::SequenceExhausted)
    ));
}

#[test]
fn duplicates_in_a_plan_are_skipped() {
    let mut events = make_events();
    events.insert(3, make_events().remove(2));
    let mut engine = ExecutionEngine::new();
    let mut verifier = StateVerifier::new(10);
    let mut total_events: u64 = 0;
    let done = replay_plan(
        &events,
        0,
        &mut engine,
        &mut strategies(),
        &mut verifier,
        &mut total_events,
    );
    assert_eq!(done, 5);
    assert_eq!(total_events, 4);
}

#[test]
fn replay_runs_through_all_events() {
    let mut engine = ExecutionEngine::new();
    let mut verifier = StateVerifier::new(2);
    let mut metrics = PipelineMetrics::new();
    let mut player = ReplayPlayer::from_events(make_events());
    let n = run_replay(
        &mut player,
        &mut engine,
        &mut strategies(),
        &mut verifier,
        &mut metrics,
    );
    assert_eq!(n, 4);
    assert!(player.is_done());
    assert_eq!(metrics.total_events, 4);
    assert_eq!(metrics.total_orders, 1);
    assert_eq!(metrics.total_fills, 2);
    assert_eq!(metrics.total_rejects, 0);
    assert_eq!(metrics.event_processing.count(), 4);
    assert_eq!(metrics.strategy_compute.count(), 4);
    assert_eq!(metrics.state_hash.count(), 2);
    assert_eq!(metrics.risk_check.count(), 0);
    assert_eq!(verifier.last_seq(), 4);
    assert_eq!(verifier.last_hash(), engine.state_hash());
}

#[test]
fn replay_stops_before_an_overflow() {
    let mut events = make_events();
    if let EventPayload::OrderFill(fill) = &mut events[3].payload {
        fill.qty = Qty(u64::MAX);
    }
    let mut engine = ExecutionEngine::new();
    let mut player = ReplayPlayer::from_events(events);
    let n = run_replay(
        &mut player,
        &mut engine,
        &mut strategies(),
        &mut StateVerifier::new(100),
        &mut PipelineMetrics::new(),
    );
    assert_eq!(n, 3);
    assert!(!player.is_done());
}

#[test]
fn player_gives_batches() {
    let mut player = ReplayPlayer::from_events(make_events());
    let seqs: Vec<u64> = player.next_batch(3).iter().map(|e| e.seq).collect();
    assert_eq!(seqs, vec![1, 2, 3]);
    assert_eq!(player.position(), 3);
    assert_eq!(player.next_batch(3).len(), 1);
    assert_eq!(player.next_batch(3).len(), 0);
    assert!(player.is_done());
}
