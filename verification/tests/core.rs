use atomic_mesh::clock::{LamportClock, SequenceGenerator, WallClock};
use atomic_mesh::error::AtomicError;
use atomic_mesh::metrics::{
    HistogramSnapshot, LatencyHistogram, PipelineMetrics, StageDecimals, StageTimer,
};
use atomic_mesh::node::{node_id_bytes, short_id, NodeInfo, NodeRole, NodeState};
use atomic_mesh::types::{
    BookSnapshot, Level, OrderId, Position, Price, Qty, Side, Symbol, Venue,
};

fn stage_decimals(h: &HistogramSnapshot) -> StageDecimals {
    StageDecimals {
        avg: format!("{}ns", h.avg_ns()),
        min: format!("{}ns", h.min_ns),
        max: format!("{}ns", h.max_ns),
        shares: h
            .buckets
            .iter()
            .map(|n| format!("{:.1}", *n as f64 / h.count.max(1) as f64 * 100.0))
            .collect(),
    }
}

fn stages(m: &PipelineMetrics) -> Vec<StageDecimals> {
    m.snapshots().iter().map(|h| stage_decimals(h)).collect()
}

fn rank(count: u64, pct: f64) -> u64 {
    (count as f64 * pct / 100.0).ceil() as u64
}

#[test]
fn histogram_records_and_counts() {
    let mut h = LatencyHistogram::new("test");
    h.record(50);
    h.record(500);
    h.record(5_000);

    assert_eq!(h.count(), 3);
    assert_eq!(h.min_ns(), 50);
    assert_eq!(h.max_ns(), 5_000);
}

#[test]
fn histogram_percentile() {
    let mut h = LatencyHistogram::new("test");
    for _ in 0..100 {
        h.record(50);
    }
    assert_eq!(h.percentile(rank(h.count(), 50.0)), 100);
    assert_eq!(h.percentile(rank(h.count(), 99.0)), 100);
}

#[test]
fn percentiles_round_their_rank_up() {
    let mut h = LatencyHistogram::new("test");
    h.record(50);
    h.record(50);
    h.record(500);
    assert_eq!(rank(h.count(), 67.0), 3);
    assert_eq!(h.percentile(rank(h.count(), 66.0)), 100);
    assert_eq!(h.percentile(rank(h.count(), 67.0)), 1_000);
}

#[test]
fn stage_timer_records_on_drop() {
    let mut h = LatencyHistogram::new("test");
    {
        let timer = StageTimer::start();
        std::hint::black_box(42);
        timer.stop(&mut h);
    }
    assert_eq!(h.count(), 1);
    assert!(h.min_ns() > 0 || h.max_ns() > 0);
}

#[test]
fn pipeline_metrics_report() {
    let mut m = PipelineMetrics::new();
    m.feed_recv.record(1_000);
    m.strategy_compute.record(50_000);
    m.total_events += 1;

    let report = m.report(&stages(&m));
    assert!(report.contains("ATOMIC MESH METRICS"));
    assert!(report.contains("feed_recv"));
    assert!(report.contains("strategy_compute"));
}

#[test]
fn report_lists_counters_and_only_stages_with_samples() {
    let mut m = PipelineMetrics::new();
    for ns in [7u64, 50, 40_000] {
        m.risk_check.record(ns);
    }
    m.state_hash.record(10_000_000_000);
    m.total_events = 5;
    m.total_orders = 4;
    m.total_fills = 3;
    m.total_rejects = 2;
    m.sequence_gaps = 1;
    assert_eq!(
        m.report(&stages(&m)),
        "═══ ATOMIC MESH METRICS ═══\n  events: 5  orders: 4  fills: 3  rejects: 2  \
         seq_gaps: 1\n\
         \x20 risk_check (n=3, avg=13352ns, min=7ns, max=40000ns ns)\n\
         \x20   <100ns          2 (66.7%)\n\
         \x20   <100μs          1 (33.3%)\n\
         \x20 state_hash (n=1, avg=10000000000ns, min=10000000000ns, max=10000000000ns ns)\n\
         \x20   ≥10s            1 (100.0%)\n"
    );
    m.reset();
    assert_eq!(m.total_events, 0);
    assert_eq!(m.risk_check.count(), 0);
    assert_eq!(m.risk_check.min_ns(), 0);
}

#[test]
fn histogram_buckets_have_half_open_bounds() {
    let mut h = LatencyHistogram::new("test");
    for ns in [0u64, 99, 100, 999, 1_000, 10_000_000_000, u64::MAX] {
        h.record(ns);
    }
    let s = h.snapshot();
    assert_eq!(s.buckets, [2, 2, 1, 0, 0, 0, 0, 0, 0, 2]);
    assert_eq!(s.count, 7);
    assert_eq!(s.name, "test");
    assert_eq!(h.percentile(7), u64::MAX);
    assert_eq!(h.percentile(3), 1_000);
}

#[test]
fn histogram_average_is_rounded_down() {
    let mut h = LatencyHistogram::new("test");
    assert_eq!(h.avg_ns(), 0);
    assert_eq!(h.percentile(0), 0);
    h.record(3);
    h.record(4);
    assert_eq!(h.avg_ns(), 3);
    assert_eq!(h.sum_ns(), 7);
    assert_eq!(h.snapshot().avg_ns(), 3);
}

#[test]
fn lamport_clock_orders_causally() {
    let mut sender = LamportClock::new();
    let mut receiver = LamportClock::from(2);
    let mut sent: u64 = 0;
    for _ in 0..5 {
        sent = sender.tick();
    }
    let received = receiver.witness(sent);
    assert!(received > sent);
    assert_eq!(receiver.now(), received);
}

#[test]
fn sequence_generator_counts_up() {
    let mut gen = SequenceGenerator::from(41);
    assert_eq!(gen.peek(), 41);
    assert_eq!(gen.next(), 41);
    assert_eq!(gen.next(), 42);
}

#[test]
fn wall_clock_replays_a_set_time() {
    let mut clock = WallClock::replay();
    clock.set_replay_time(123);
    assert_eq!(clock.now_nanos(), 123);
    assert!(WallClock::live().now_nanos() > 1_600_000_000_000_000_000);
}

#[test]
fn errors_say_what_happened() {
    let gap = AtomicError::SequenceGap { expected: 5, got: 7 };
    assert_eq!(gap.to_text(), "sequence gap: expected 5, got 7");
    assert_eq!(
        AtomicError::DuplicateSeq(3).to_text(),
        "duplicate sequence number: 3"
    );
    assert_eq!(
        AtomicError::StateHashMismatch {
            seq: 1,
            local_hash: "aa".to_string(),
            remote_hash: "bb".to_string(),
        }
        .to_text(),
        "state hash mismatch at seq 1: local=aa, remote=bb"
    );
    assert_eq!(
        AtomicError::SnapshotNotFound(9).to_text(),
        "snapshot not found for seq 9"
    );
    assert_eq!(
        AtomicError::OrderNotFound("x".to_string()).to_text(),
        "order not found: x"
    );
    assert_eq!(
        AtomicError::OrderAlreadyExists("x".to_string()).to_text(),
        "order already exists: x"
    );
    assert_eq!(
        AtomicError::InvalidOrderTransition {
            from: "a".to_string(),
            to: "b".to_string(),
        }
        .to_text(),
        "invalid order state transition: a -> b"
    );
    assert_eq!(
        AtomicError::RiskLimitExceeded("x".to_string()).to_text(),
        "risk limit exceeded: x"
    );
    assert_eq!(
        AtomicError::KillSwitch("x".to_string()).to_text(),
        "kill switch activated: x"
    );
    assert_eq!(
        AtomicError::NodeUnreachable("x".to_string()).to_text(),
        "node unreachable: x"
    );
    assert_eq!(
        AtomicError::ConsensusFailed("x".to_string()).to_text(),
        "consensus failed: x"
    );
    assert_eq!(
        AtomicError::ConnectionFailed {
            venue: Venue::OKX,
            reason: "x".to_string(),
        }
        .to_text(),
        "connection to okx failed: x"
    );
    assert_eq!(
        AtomicError::FeedDesync {
            venue: Venue::Kraken,
            reason: "x".to_string(),
        }
        .to_text(),
        "feed desync on kraken: x"
    );
    assert_eq!(
        AtomicError::UnknownSymbol("x".to_string()).to_text(),
        "unknown symbol: x"
    );
    assert_eq!(
        AtomicError::ReplayDivergence {
            seq: 4,
            reason: "x".to_string(),
        }
        .to_text(),
        "replay divergence at seq 4: x"
    );
    assert_eq!(
        AtomicError::Serialization("x".to_string()).to_text(),
        "serialization error: x"
    );
    assert_eq!(AtomicError::Io("x".to_string()).to_text(), "io error: x");
    assert_eq!(
        AtomicError::Config("x".to_string()).to_text(),
        "config error: x"
    );
}

#[test]
fn symbols_are_in_upper_case() {
    let s = Symbol::new("btc", "usdt", Venue::Binance);
    assert_eq!(s.base, "BTC");
    assert_eq!(s.pair(), "BTC/USDT");
    assert_eq!(s.to_text(), "binance:BTC/USDT");
    assert_eq!(Symbol::new("straße", "é", Venue::OKX).pair(), "STRASSE/É");
}

#[test]
fn order_ids_are_distinct() {
    let a = OrderId::new(Venue::Bybit, 1);
    let b = OrderId::new(Venue::Bybit, 11);
    assert_eq!(a.to_text(), "bybit-1");
    assert_eq!(b.to_text(), "bybit-11");
    assert_ne!(a, b);
    assert_ne!(OrderId::new(Venue::OKX, 11), a);
    assert_ne!(OrderId::new(Venue::OKX, 1), OrderId::new(Venue::Kraken, 11));
}

#[test]
fn midpoint_rounds_toward_zero() {
    assert_eq!(Price(100).midpoint(Price(103)), Price(101));
    assert_eq!(Price(-100).midpoint(Price(-103)), Price(-101));
    assert_eq!(Price(i64::MAX).midpoint(Price(i64::MAX)), Price(i64::MAX));
    assert_eq!(Price::zero(), Price(0));
    assert_eq!(Price(-12).to_text(), "-12");
}

#[test]
fn quantities_do_not_go_below_zero() {
    assert_eq!(Qty(3).saturating_sub(Qty(5)), Qty(0));
    assert_eq!(Qty(5).saturating_sub(Qty(3)), Qty(2));
    assert_eq!(Qty::zero().to_text(), "0");
}

#[test]
fn sides_have_opposites() {
    assert_eq!(Side::Buy.opposite(), Side::Sell);
    assert_eq!(Side::Sell.opposite(), Side::Buy);
}

#[test]
fn flat_positions_are_flat() {
    let p = Position::flat(Symbol::new("BTC", "USDT", Venue::Binance));
    assert!(p.is_flat());
    assert_eq!(p.notional(), 0);
}

#[test]
fn snapshots_of_books_have_a_mid_price() {
    let s = BookSnapshot {
        symbol: Symbol::new("BTC", "USDT", Venue::Binance),
        bids: vec![Level { price: Price(10), qty: Qty(1) }],
        asks: vec![Level { price: Price(13), qty: Qty(1) }],
        timestamp: 0,
        seq: 0,
    };
    assert_eq!(s.mid_price(), Some(Price(11)));
    assert_eq!(s.spread(), Some(3));
}

#[test]
fn node_ids_are_named_bytes() {
    let id = node_id_bytes("node-0");
    assert_eq!(&id[..6], b"node-0");
    assert_eq!(&id[6..], &[0u8; 26]);
    assert_eq!(short_id(&id), "6e6f64652d300000");
    let long = node_id_bytes("abcdefghijklmnopqrstuvwxyz0123456789");
    assert_eq!(&long, b"abcdefghijklmnopqrstuvwxyz012345");
}

#[test]
fn new_nodes_are_initializing() {
    let info = NodeInfo::new([0xabu8; 32], NodeRole::Follower, "host:1".to_string());
    assert_eq!(info.state, NodeState::Initializing);
    assert_eq!(info.id_hex(), "abababababababab");
}
