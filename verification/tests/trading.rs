use atomic_mesh::backtest::{
    end_tick, equity_csv, is_split_in_range, on_simulated_event, order_symbol, run_commands,
    split_fill, BacktestTick, EquityPoint, FillSplit, SimulatedAction,
};
use atomic_mesh::book::OrderBook;
use atomic_mesh::config::{GatewaySettings, NodeConfig, StrategyConfig};
use atomic_mesh::dashboard::{
    event_kind, kill_code, latencies, KILL_CANCEL_ALL, KILL_DISCONNECT, KILL_NONE,
    KILL_STOP_ALL,
};
use atomic_mesh::event::{
    Event, EventPayload, OrderAckEvent, OrderBookUpdateEvent, OrderFillEvent, OrderRejectEvent,
};
use atomic_mesh::execution::{ExecutionEngine, StateVerifier};
use atomic_mesh::feed::{
    command_symbol, is_spread_in_range, sequence_event, update_book, watch_spread,
};
use atomic_mesh::hotpath::{
    strategy_commands, HpCmdTag, HpCommand, HpLevel, HpResult, HpSide, LevelBuffers,
};
use atomic_mesh::ledger::{next_day, qty_divisor, Ledger, LedgerFill};
use atomic_mesh::log::EventLog;
use atomic_mesh::metrics::PipelineMetrics;
use atomic_mesh::node::{node_id_bytes, NodeRole, NodeState};
use atomic_mesh::protocol::MeshMessage;
use atomic_mesh::replay::verify_step;
use atomic_mesh::replication::{
    handle_mesh_message, heartbeat, is_snapshot_due, sync_response, MeshAction,
};
use atomic_mesh::risk::{RiskEngine, RiskLimits};
use atomic_mesh::strategy::{StrategyCommand, Table};
use atomic_mesh::symbols::{parse_venue_symbol, split_feed_symbol, split_pair, strategy_id};
use atomic_mesh::synthetic::{book_event, has_trade, noise, seed, trade_event};
use atomic_mesh::trading::{
    apply_kill_action, cancel_all, is_reseed_due, on_gateway_event, place_order, OrderIntent,
};
use atomic_mesh::types::{
    Level, OrderId, OrderType, Price, Qty, Side, Symbol, TimeInForce, Venue,
};

fn sym() -> Symbol {
    Symbol::new("BTC", "USDT", Venue::Binance)
}

fn level(price: i64, qty: u64) -> Level {
    Level { price: Price(price), qty: Qty(qty) }
}

fn ledger_fill(side: Side, price: i64, qty: u64, entry_value: i64) -> LedgerFill {
    LedgerFill { side, price: Price(price), qty: Qty(qty), fee: 0, entry_value }
}

fn intent(qty: u64) -> OrderIntent {
    OrderIntent {
        symbol: sym(),
        side: Side::Buy,
        order_type: OrderType::Limit,
        price: Price(100),
        qty: Qty(qty),
        time_in_force: TimeInForce::GoodTilCancel,
        venue: Venue::Binance,
    }
}

fn order_event(seq: u64, payload: EventPayload) -> Event {
    Event::new(seq, 0, [0u8; 32], payload)
}

fn fill_payload(id: &str, side: Side, price: i64, qty: u64, fee: i64) -> EventPayload {
    EventPayload::OrderFill(OrderFillEvent {
        order_id: OrderId(id.to_string()),
        symbol: sym(),
        side,
        price: Price(price),
        qty: Qty(qty),
        remaining: Qty(0),
        fee,
        is_maker: false,
        venue: Venue::Binance,
    })
}

fn ack_payload(id: &str) -> EventPayload {
    EventPayload::OrderAck(OrderAckEvent {
        order_id: OrderId(id.to_string()),
        exchange_order_id: "EX".to_string(),
        venue: Venue::Binance,
    })
}

#[test]
fn ledger_realizes_profit_when_a_long_is_closed() {
    let mut ledger = Ledger::new();
    assert_eq!(
        ledger.on_fill(&ledger_fill(Side::Buy, 1000, 200, 0), 100),
        (2000, None)
    );
    assert_eq!(ledger.position_qty, 200);
    assert_eq!(ledger.cost_basis, 2000);
    assert_eq!(ledger.closing_qty(Side::Sell, Qty(50)), 50);
    assert_eq!(ledger.closing_qty(Side::Buy, Qty(50)), 0);
    let (value, made) = ledger.on_fill(&ledger_fill(Side::Sell, 1100, 50, 500), 100);
    assert_eq!(value, 550);
    assert_eq!(made, None);
    assert_eq!(ledger.realized_pnl, 50);
    assert_eq!(ledger.cost_basis, 1500);
    let (_, made) = ledger.on_fill(&ledger_fill(Side::Sell, 900, 150, 1500), 100);
    assert_eq!(made, Some(-100));
    assert_eq!(ledger.position_qty, 0);
    assert_eq!(ledger.realized_pnl, -100);
    assert_eq!(ledger.last_flat_pnl, -100);
}

#[test]
fn ledger_flips_sides() {
    let mut ledger = Ledger::new();
    ledger.on_fill(&ledger_fill(Side::Sell, 1000, 100, 0), 100);
    assert_eq!(ledger.position_qty, -100);
    assert_eq!(ledger.cost_basis, -1000);
    assert_eq!(ledger.closing_qty(Side::Buy, Qty(300)), 100);
    ledger.on_fill(&ledger_fill(Side::Buy, 900, 300, 1000), 100);
    assert_eq!(ledger.position_qty, 200);
    assert_eq!(ledger.cost_basis, 1800);
    assert_eq!(ledger.realized_pnl, 100);
    ledger.on_fill(&ledger_fill(Side::Sell, 900, 300, 1800), 100);
    assert_eq!(ledger.position_qty, -100);
    assert_eq!(ledger.cost_basis, -900);
}

#[test]
fn ledger_sees_overflow_coming() {
    let mut ledger = Ledger::new();
    assert!(ledger.is_fill_in_range(&ledger_fill(Side::Buy, 1000, 200, 0), 100));
    assert!(!ledger.is_fill_in_range(&ledger_fill(Side::Buy, i64::MAX, 2, 0), 100));
    assert!(!ledger.is_fill_in_range(&ledger_fill(Side::Buy, 1, 1, 0), 0));
    ledger.position_qty = i64::MAX;
    assert!(!ledger.is_fill_in_range(&ledger_fill(Side::Buy, 1, 1, 0), 1));
    assert!(ledger.is_fill_in_range(&ledger_fill(Side::Sell, 1, 1, 0), 1));
    let risk = RiskEngine::new(RiskLimits::default());
    assert!(ledger.is_settle_in_range(&risk, &ledger_fill(Side::Sell, 1, 1, 0), 1));
}

#[test]
fn settling_keeps_the_risk_engine_in_step() {
    let mut ledger = Ledger::new();
    let mut risk = RiskEngine::new(RiskLimits::default());
    ledger.settle(&mut risk, &ledger_fill(Side::Buy, 1000, 100, 0), 100);
    let mut losing = ledger_fill(Side::Sell, 900, 100, 1000);
    losing.fee = 7;
    let value = ledger.settle(&mut risk, &losing, 100);
    assert_eq!(value, 900);
    assert_eq!(risk.total_pnl(), -107);
    assert_eq!(ledger.realized_pnl, -107);
    assert_eq!(risk.consecutive_losses(), 1);
    ledger.settle(&mut risk, &ledger_fill(Side::Buy, 1000, 100, 0), 100);
    ledger.settle(&mut risk, &ledger_fill(Side::Sell, 1200, 100, 1000), 100);
    assert_eq!(risk.consecutive_losses(), 0);
    assert_eq!(risk.total_pnl(), 93);
}

#[test]
fn ledger_positions_and_exposure() {
    let mut ledger = Ledger::new();
    assert!(ledger.position(&sym()).is_none());
    assert!(ledger.is_position_in_range());
    ledger.position_qty = -1;
    ledger.cost_basis = i64::MIN;
    assert!(!ledger.is_position_in_range());
    ledger.position_qty = -300;
    ledger.cost_basis = -1000;
    let p = ledger.position(&sym()).unwrap();
    assert_eq!(p.side, Side::Sell);
    assert_eq!(p.qty, Qty(300));
    assert_eq!(p.avg_entry, Price(3));
    assert_eq!(ledger.exposure(50, 100), 150);
    assert_eq!(ledger.exposure(i64::MAX, 1), i64::MAX);
    ledger.position_qty = i64::MIN;
    assert_eq!(ledger.exposure(1, 1), i64::MIN);
}

#[test]
fn divisors_are_powers_of_ten() {
    assert_eq!(qty_divisor(0), 1);
    for d in 0..=18u8 {
        assert_eq!(qty_divisor(d), 10i64.pow(d as u32));
    }
}

#[test]
fn days_begin_at_midnight() {
    let day: u64 = 86_400_000_000_000;
    assert_eq!(next_day(day * 3 - 1, 2), None);
    assert_eq!(next_day(day * 3, 2), Some(3));
}

#[test]
fn orders_are_placed_within_limits() {
    let mut engine = ExecutionEngine::new();
    let mut risk = RiskEngine::new(RiskLimits { max_open_orders: 1, ..Default::default() });
    let mut metrics = PipelineMetrics::new();
    let ledger = Ledger::new();
    let event = place_order(
        &intent(5),
        &mut engine,
        &mut risk,
        &ledger,
        &mut metrics,
        10,
        11,
        12,
        [1u8; 32],
        NodeState::Active,
    )
    .unwrap();
    assert_eq!(event.seq, 11);
    assert_eq!(event.timestamp, 12);
    match &event.payload {
        EventPayload::OrderNew(o) => assert_eq!(o.order_id.0, "binance-1"),
        _ => panic!("expected a new order"),
    }
    assert_eq!(engine.get_order("binance-1").unwrap().created_at, 10);
    assert_eq!(risk.open_order_count(), 1);
    assert_eq!(metrics.total_orders, 1);
    assert_eq!(metrics.risk_check.count(), 1);

    let refused = place_order(
        &intent(5),
        &mut engine,
        &mut risk,
        &ledger,
        &mut metrics,
        10,
        11,
        12,
        [1u8; 32],
        NodeState::Active,
    );
    assert!(refused.is_err());
    assert_eq!(metrics.total_rejects, 1);
    assert_eq!(engine.all_orders().len(), 1);
}

fn engine_with_orders(n: u64) -> (ExecutionEngine, RiskEngine) {
    let mut engine = ExecutionEngine::new();
    let mut risk = RiskEngine::new(RiskLimits::default());
    for _ in 0..n {
        place_order(
            &intent(5),
            &mut engine,
            &mut risk,
            &Ledger::new(),
            &mut PipelineMetrics::new(),
            0,
            0,
            0,
            [0u8; 32],
            NodeState::Active,
        )
        .unwrap();
    }
    (engine, risk)
}

#[test]
fn kill_actions_stop_and_cancel() {
    assert_eq!(kill_code("stop_all"), Some(KILL_STOP_ALL));
    assert_eq!(kill_code("cancel_all"), Some(KILL_CANCEL_ALL));
    assert_eq!(kill_code("disconnect"), Some(KILL_DISCONNECT));
    assert_eq!(kill_code("explode"), None);

    let (engine, mut risk) = engine_with_orders(3);
    assert!(!apply_kill_action(KILL_NONE, true, &engine, &mut risk));
    assert_eq!(risk.open_order_count(), 3);
    assert!(apply_kill_action(KILL_CANCEL_ALL, true, &engine, &mut risk));
    assert_eq!(risk.open_order_count(), 3);
    assert!(!risk.is_killed());
    assert!(!apply_kill_action(KILL_STOP_ALL, false, &engine, &mut risk));
    assert_eq!(risk.open_order_count(), 0);
    assert!(risk.is_killed());
}

#[test]
fn cancel_all_closes_paper_orders() {
    let (engine, mut risk) = engine_with_orders(2);
    risk.on_order_opened();
    assert!(cancel_all(true, &engine, &mut risk));
    assert_eq!(risk.open_order_count(), 3);
    assert!(!cancel_all(false, &engine, &mut risk));
    assert_eq!(risk.open_order_count(), 1);
}

#[test]
fn gateway_events_are_accounted_for() {
    let (mut engine, mut risk) = engine_with_orders(2);
    let mut log = EventLog::open("x");
    let mut ledger = Ledger::new();
    let mut metrics = PipelineMetrics::new();
    let mut run = |seq: u64, payload: EventPayload| {
        let value = on_gateway_event(
            &order_event(seq, payload),
            &mut engine,
            &mut log,
            &mut risk,
            &mut ledger,
            &mut metrics,
            0,
            1,
            NodeState::Active,
        );
        (value, risk.open_order_count(), ledger.position_qty)
    };
    assert_eq!(run(1, ack_payload("binance-1")), (None, 2, 0));
    assert_eq!(
        run(2, fill_payload("binance-1", Side::Buy, 10, 5, 1)),
        (Some(50), 1, 5)
    );
    assert_eq!(
        run(
            3,
            EventPayload::OrderReject(OrderRejectEvent {
                order_id: OrderId("binance-2".to_string()),
                reason: "no".to_string(),
                venue: Venue::Binance,
            })
        ),
        (None, 0, 5)
    );
    assert_eq!(metrics.total_fills, 1);
    assert_eq!(metrics.total_rejects, 1);
    assert_eq!(ledger.realized_pnl, -1);
    assert_eq!(log.event_count(), 3);
    assert!(engine.open_order_ids().is_empty());
}

#[test]
fn feed_events_are_sequenced_and_logged() {
    let mut log = EventLog::open("x");
    let mut last_seq: u64 = 98;
    let (mut engine, _) = engine_with_orders(1);
    let mut event = order_event(0, ack_payload("binance-1"));
    let mut run = |event: &mut Event, now: u64, state: NodeState| {
        let due = sequence_event(
            event,
            &mut last_seq,
            now,
            [2u8; 32],
            &mut log,
            &mut engine,
            state,
        );
        (due, last_seq)
    };
    assert_eq!(run(&mut event, 5, NodeState::Active), (Some(false), 99));
    assert_eq!(event.seq, 99);
    assert_eq!(event.timestamp, 5);
    assert_eq!(event.source, [2u8; 32]);
    assert_eq!(run(&mut event, 6, NodeState::Active), (Some(true), 100));
    assert_eq!(run(&mut event, 7, NodeState::Diverged), (None, 100));
    assert_eq!(event.timestamp, 6);
    assert_eq!(engine.get_order("binance-1").unwrap().updated_at, 5);
    assert_eq!(log.event_count(), 2);
    let read = EventLog::read_all(&log.flush()).unwrap();
    assert_eq!(read[0].seq, 99);
    assert_eq!(read[1].seq, 100);
}

#[test]
fn feed_updates_reach_books_and_risk() {
    let mut books: Table<OrderBook> = Table::new();
    let mut update = OrderBookUpdateEvent {
        symbol: sym(),
        bids: vec![level(100, 1)],
        asks: vec![level(103, 1)],
        is_snapshot: true,
        exchange_ts: 0,
    };
    update_book(&mut books, &update, 1, 2);
    update.is_snapshot = false;
    update.bids = vec![level(101, 1)];
    update.asks = vec![];
    let book = update_book(&mut books, &update, 3, 4);
    assert_eq!(book.bid_count(), 2);
    assert_eq!(books.get("BTC/USDT").unwrap().best_bid(), Some(level(101, 1)));
    assert!(is_spread_in_range(&book));
    let mut risk = RiskEngine::new(RiskLimits { max_spread: 1, ..Default::default() });
    watch_spread(&book, &mut risk);
    assert_eq!(
        risk.check_order(&sym(), Side::Buy, Qty(1), Price(1), None, 0)
            .unwrap_err()
            .to_text(),
        "risk limit exceeded: spread 2 exceeds max 1 — skipping quote"
    );
    update.bids = vec![level(i64::MIN, 1)];
    update.is_snapshot = true;
    update.asks = vec![level(i64::MAX, 1)];
    assert!(!is_spread_in_range(&update_book(&mut books, &update, 5, 6)));
}

#[test]
fn venue_symbols_split_before_known_quotes() {
    let pair = |raw: &str| parse_venue_symbol(raw, Venue::Binance).unwrap().pair();
    assert_eq!(pair("btcusdt"), "BTC/USDT");
    assert_eq!(pair("ETHBTC"), "ETH/BTC");
    assert_eq!(pair("BTCFDUSD"), "BTC/FDUSD");
    assert_eq!(pair("SOLEUR"), "SOL/EUR");
    assert_eq!(pair("ABCDEFG"), "ABC/DEFG");
    assert_eq!(pair("ABCD"), "A/BCD");
    assert_eq!(pair("ABC"), "ABC/USDT");
    assert_eq!(pair("USDT"), "U/SDT");
    assert_eq!(
        split_pair("XYZWUSD"),
        Some(("XYZW".to_string(), "USD".to_string()))
    );
    assert_eq!(split_pair("A€€"), None);
}

#[test]
fn feed_symbols_split_before_four_bytes() {
    assert_eq!(
        split_feed_symbol("BTCUSDT"),
        Some(("BTC".to_string(), "USDT".to_string()))
    );
    assert_eq!(
        split_feed_symbol("ABC"),
        Some((String::new(), "ABC".to_string()))
    );
    assert_eq!(split_feed_symbol("A€€"), None);
    assert_eq!(strategy_id(Venue::Binance, "BTCUSDT"), "mm_binance_BTCUSDT");
}

#[test]
fn configurations_have_defaults() {
    let config = NodeConfig::default();
    assert_eq!(config.node_id, "node-0");
    assert_eq!(config.role, NodeRole::Leader);
    assert_eq!(config.feeds[0].symbols, vec!["BTCUSDT"]);
    assert_eq!(config.snapshot_interval, 10000);
    assert_eq!(StrategyConfig::default().stale_order_timeout_secs, 30);
    assert!(NodeConfig::check_format("a.json").is_ok());
    assert_eq!(
        NodeConfig::check_format("a.toml"),
        Err("unsupported config format (use .json)")
    );
}

#[test]
fn gateway_settings_name_their_variables() {
    let settings = GatewaySettings::default();
    assert!(settings.is_testnet());
    assert_eq!(settings.api_key(Some("k".to_string())), Ok("k".to_string()));
    assert_eq!(
        settings.api_key(None),
        Err("env var 'ATOMIC_API_KEY' not set".to_string())
    );
    assert_eq!(
        settings.api_secret(None),
        Err("env var 'ATOMIC_API_SECRET' not set".to_string())
    );
}

#[test]
fn dashboards_show_kinds_and_latencies() {
    assert_eq!(event_kind(&ack_payload("a")), "other");
    assert_eq!(event_kind(&fill_payload("a", Side::Buy, 1, 1, 0)), "fill");
    let mut metrics = PipelineMetrics::new();
    metrics.risk_check.record(4);
    metrics.risk_check.record(7);
    let rows = latencies(&metrics);
    assert_eq!(rows.len(), 8);
    assert_eq!(rows[3].0, "risk_check");
    assert_eq!(rows[3].1.count, 2);
    assert_eq!(rows[3].1.avg_ns, 5);
    assert_eq!(rows[0].1.min_ns, 0);
}

fn answer(commands: &[(i32, i64, u64)]) -> HpResult {
    let mut result = HpResult::default();
    for (i, (tag, price, qty)) in commands.iter().enumerate() {
        result.commands[i] = HpCommand { tag: *tag, price: *price, qty: *qty };
    }
    result.count = commands.len() as i32;
    result
}

#[test]
fn native_commands_become_strategy_commands() {
    let commands = strategy_commands(&answer(&[(3, 0, 0), (1, 5, 6), (9, 1, 1), (2, 7, 8)]), &sym());
    assert_eq!(commands.len(), 3);
    assert!(matches!(commands[0], StrategyCommand::CancelAll { .. }));
    match &commands[2] {
        StrategyCommand::PlaceOrder { side, price, qty, order_type, .. } => {
            assert_eq!(*side, Side::Sell);
            assert_eq!(*price, Price(7));
            assert_eq!(*qty, Qty(8));
            assert_eq!(*order_type, OrderType::Limit);
        }
        _ => panic!("expected an order"),
    }
    assert_eq!(HpCmdTag::from_code(2), HpCmdTag::PlaceAsk);
    assert_eq!(HpSide::from_side(Side::Sell).code(), 1);
}

#[test]
fn level_buffers_take_forty_levels() {
    let mut buffers = LevelBuffers::new();
    let many: Vec<Level> = (0..50).map(|i| level(i, i as u64)).collect();
    assert_eq!(buffers.load_book(&many, &many[..2]), (40, 2));
    assert_eq!(buffers.bids[39], HpLevel { price: 39, qty: 39 });
    assert_eq!(buffers.asks[2], HpLevel::default());
    buffers.load_book(&many[5..6], &[]);
    assert_eq!(buffers.bids[0].price, 5);
    assert_eq!(buffers.bids[1].price, 1);
}

fn tick() -> BacktestTick {
    BacktestTick { seq: 7, timestamp: 8, symbol: sym(), source: [0u8; 32] }
}

#[test]
fn backtests_quote_only_when_flat() {
    let mut engine = ExecutionEngine::new();
    let quotes = answer(&[(1, 5, 6), (2, 7, 8), (3, 0, 0)]);
    let mut counters = PipelineMetrics::new();
    assert!(run_commands(&quotes, &tick(), 3, &mut engine, &mut counters).is_empty());
    assert_eq!(engine.all_orders().len(), 0);
    assert_eq!(counters.total_orders, 0);
    let actions = run_commands(&quotes, &tick(), 0, &mut engine, &mut counters);
    assert_eq!(actions.len(), 3);
    assert_eq!(counters.total_orders, 2);
    match &actions[1] {
        SimulatedAction::Submit(order) => {
            assert_eq!(order.order_id.0, "simulated-2");
            assert_eq!(order.side, Side::Sell);
        }
        _ => panic!("expected an order"),
    }
    match &actions[2] {
        SimulatedAction::Cancel(ids) => {
            assert_eq!(ids.len(), 2);
            assert_ne!(ids[0], ids[1]);
        }
        _ => panic!("expected a cancellation"),
    }
    assert_eq!(engine.get_order("simulated-1").unwrap().created_at, 8);
}

#[test]
fn equity_curves_are_comma_separated() {
    assert_eq!(equity_csv(&vec![]), "seq,realized_pnl_usd,position_qty\n");
    let points = vec![
        EquityPoint { seq: 7, pnl: "-0.500000".to_string(), position_qty: -3 },
        EquityPoint { seq: 9, pnl: "1.250000".to_string(), position_qty: 0 },
    ];
    assert_eq!(
        equity_csv(&points),
        "seq,realized_pnl_usd,position_qty\n7,-0.500000,-3\n9,1.250000,0\n"
    );
}

#[test]
fn fills_close_positions_before_they_open_others() {
    let flip = split_fill(-5, Side::Buy, Qty(8));
    assert_eq!(flip, FillSplit { closed: 5, opened: 3, position: 3 });
    let close = split_fill(5, Side::Sell, Qty(2));
    assert_eq!(close, FillSplit { closed: 2, opened: 0, position: 3 });
    let open = split_fill(5, Side::Buy, Qty(2));
    assert_eq!(open, FillSplit { closed: 0, opened: 2, position: 7 });
    assert!(is_split_in_range(i64::MAX, Side::Sell, Qty(1)));
    assert!(!is_split_in_range(i64::MAX, Side::Buy, Qty(1)));
    assert!(!is_split_in_range(i64::MIN, Side::Buy, Qty(1)));
}

#[test]
fn simulated_events_and_ticks_are_counted() {
    let mut engine = ExecutionEngine::new();
    let mut counters = PipelineMetrics::new();
    let mut verifier = StateVerifier::new(2);
    let mut events = Vec::new();
    let quotes = answer(&[(1, 100, 5)]);
    for action in run_commands(&quotes, &tick(), 0, &mut engine, &mut counters) {
        if let SimulatedAction::Submit(order) = action {
            events.push(order_event(2, ack_payload(&order.order_id.0)));
            events.push(order_event(3, fill_payload(&order.order_id.0, Side::Buy, 100, 5, 0)));
        }
    }
    let fills: Vec<bool> =
        events.iter().map(|e| on_simulated_event(e, &mut engine, &mut counters)).collect();
    assert_eq!(fills, vec![false, true]);
    assert_eq!(counters.total_fills, 1);
    assert!(engine.open_order_ids().is_empty());
    end_tick(7, &engine, &mut verifier, &mut counters);
    assert_eq!(verifier.last_seq(), 0);
    end_tick(8, &engine, &mut verifier, &mut counters);
    assert_eq!(verifier.last_seq(), 8);
    assert_eq!(verifier.last_hash(), engine.state_hash());
    assert_eq!(counters.total_events, 2);
    assert_eq!(verify_step(9, &engine, &mut verifier), None);
    assert_eq!(verify_step(10, &engine, &mut verifier), Some(engine.state_hash()));
}

#[test]
fn events_name_the_symbol_of_their_orders() {
    let other = Symbol::new("ETH", "USDT", Venue::Binance);
    let book = book_event(0, 7_000_000, 1, sym(), [0u8; 32]);
    let ack = order_event(1, ack_payload("a"));
    let fill = order_event(2, fill_payload("a", Side::Buy, 100, 5, 0));
    assert_eq!(order_symbol(&book.payload, &other), sym());
    assert_eq!(order_symbol(&ack.payload, &other), other);
    assert_eq!(order_symbol(&fill.payload, &other), other);
    assert_eq!(command_symbol(&book.payload, &other), sym());
    assert_eq!(command_symbol(&ack.payload, &other), other);
    assert_eq!(command_symbol(&fill.payload, &other), sym());
}

#[test]
fn synthetic_markets_repeat() {
    let i: u64 = 3;
    let s = i
        .wrapping_mul(6364136223846793005)
        .wrapping_add(1442695040888963407);
    assert_eq!(seed(i), s);
    assert_eq!(noise(s), ((s >> 33) ^ s).wrapping_mul(0xff51afd7ed558ccd));
    let event = book_event(i, 7_322_350, 4, sym(), [0u8; 32]);
    assert_eq!(event.timestamp, 1_711_200_000_300_000_000);
    match &event.payload {
        EventPayload::OrderBookUpdate(b) => {
            assert_eq!(b.bids.len(), 20);
            assert_eq!(b.bids[0].price, Price(7_322_345));
            assert_eq!(b.asks[1].price, Price(7_322_455));
            assert_eq!(b.bids[5].qty, b.asks[5].qty);
            assert_eq!(
                b.bids[2].qty,
                Qty(20_000_000 + ((s.wrapping_add(34) >> 40) % 20) * 1_000_000)
            );
        }
        _ => panic!("expected a book"),
    }
    assert!(has_trade(3));
    assert!(!has_trade(4));
    let t = s.wrapping_mul(0x9e3779b97f4a7c15);
    match &trade_event(i, 7_322_350, 5, sym(), [0u8; 32]).payload {
        EventPayload::Trade(trade) => {
            assert_eq!(trade.side == Side::Buy, t >> 63 == 0);
            assert_eq!(trade.qty, Qty(1_000_000 + ((t >> 32) % 20) * 500_000));
            let reach = ((t >> 50) % 5) as i64 * 100;
            let expected = if t >> 63 == 0 {
                7_322_355 + reach
            } else {
                7_322_345 - reach
            };
            assert_eq!(trade.price, Price(expected));
        }
        _ => panic!("expected a trade"),
    }
}

#[test]
fn peers_replicate_events() {
    let (leader, _) = engine_with_orders(1);
    let mut follower = ExecutionEngine::new();
    let mut log = EventLog::open("x");
    let verifier = StateVerifier::new(1);
    let mut engine = ExecutionEngine::new();
    let event = place_order(
        &intent(5),
        &mut engine,
        &mut RiskEngine::new(RiskLimits::default()),
        &Ledger::new(),
        &mut PipelineMetrics::new(),
        0,
        1,
        0,
        [0u8; 32],
        NodeState::Active,
    )
    .unwrap();
    match handle_mesh_message(
        MeshMessage::EventReplication(event.clone()),
        &mut follower,
        &mut log,
        &verifier,
        &mut NodeState::Active,
    ) {
        MeshAction::Replicated { applied, total } => {
            assert_eq!((applied, total), (1, 1));
        }
        _ => panic!("expected replication"),
    }
    assert_eq!(follower.all_orders().len(), leader.all_orders().len());
    assert_eq!(log.event_count(), 1);
    let batch = MeshMessage::EventBatch(vec![
        order_event(2, ack_payload("binance-1")),
        order_event(3, fill_payload("binance-1", Side::Buy, 1, 1, 0)),
        order_event(4, fill_payload("binance-1", Side::Buy, 1, u64::MAX, 0)),
        order_event(5, ack_payload("x")),
    ]);
    match handle_mesh_message(batch, &mut follower, &mut log, &verifier, &mut NodeState::Active) {
        MeshAction::Replicated { applied, total } => {
            assert_eq!((applied, total), (2, 4));
        }
        _ => panic!("expected replication"),
    }
    let response = sync_response(&log.flush(), 2, 9).unwrap();
    match response {
        MeshMessage::SyncResponse { events } => assert_eq!(events.len(), 2),
        _ => panic!("expected a response"),
    }
}

#[test]
fn peers_compare_hashes() {
    let mut engine = ExecutionEngine::new();
    let mut log = EventLog::open("x");
    let mut verifier = StateVerifier::new(1);
    verifier.on_verified(4, [7u8; 8]);
    let id = node_id_bytes("node-1");
    let beat = heartbeat(id, 4, &verifier, 3_000_000_000);
    match handle_mesh_message(beat, &mut engine, &mut log, &verifier, &mut NodeState::Active) {
        MeshAction::PeerStatus { node, last_seq, hash, matches } => {
            assert_eq!(node, "6e6f64652d310000");
            assert_eq!(last_seq, 4);
            assert_eq!(hash, "0707070707070707");
            assert!(matches);
        }
        _ => panic!("expected a status"),
    }
    let other = MeshMessage::HashVerify { seq: 4, hash: [8u8; 8] };
    match handle_mesh_message(other, &mut engine, &mut log, &verifier, &mut NodeState::Active) {
        MeshAction::HashCheck { seq, matches, .. } => {
            assert_eq!(seq, 4);
            assert!(!matches);
        }
        _ => panic!("expected a check"),
    }
    match handle_mesh_message(
        MeshMessage::SyncRequest { from_seq: 1, to_seq: 2 },
        &mut engine,
        &mut log,
        &verifier,
        &mut NodeState::Active,
    ) {
        MeshAction::Answer { from_seq, to_seq } => assert_eq!((from_seq, to_seq), (1, 2)),
        _ => panic!("expected a request"),
    }
    let vote = MeshMessage::ConsensusVote {
        proposal_seq: 1,
        node_id: id,
        approved: true,
    };
    assert!(matches!(
        handle_mesh_message(vote, &mut engine, &mut log, &verifier, &mut NodeState::Active),
        MeshAction::Idle
    ));
    let snapshot = engine.snapshot(3, 4);
    match handle_mesh_message(
        MeshMessage::SnapshotBroadcast(snapshot),
        &mut engine,
        &mut log,
        &verifier,
        &mut NodeState::Active,
    ) {
        MeshAction::Save(s) => assert_eq!(s.seq, 3),
        _ => panic!("expected a snapshot"),
    }
    assert!(is_snapshot_due(20, 10));
    assert!(!is_snapshot_due(0, 10));
    assert!(!is_snapshot_due(21, 10));
}

#[test]
fn other_hashes_halt_the_node() {
    let id = node_id_bytes("node-1");
    let mut verifier = StateVerifier::new(1);
    verifier.on_verified(4, [7u8; 8]);
    let mut peer = StateVerifier::new(1);
    peer.on_verified(4, [8u8; 8]);
    let mismatches = vec![
        MeshMessage::HashVerify { seq: 4, hash: [8u8; 8] },
        heartbeat(id, 4, &peer, 0),
    ];
    for mismatch in mismatches {
        let mut state = NodeState::Active;
        let (mut engine, mut risk) = engine_with_orders(1);
        let mut log = EventLog::open("x");
        let before = engine.state_hash();
        let early = MeshMessage::HashVerify { seq: 3, hash: [8u8; 8] };
        handle_mesh_message(early, &mut engine, &mut log, &verifier, &mut state);
        assert_eq!(state, NodeState::Active);
        handle_mesh_message(mismatch, &mut engine, &mut log, &verifier, &mut state);
        assert_eq!(state, NodeState::Diverged);
        assert!(state.is_halted());

        let ack = order_event(2, ack_payload("binance-1"));
        assert!(matches!(
            handle_mesh_message(
                MeshMessage::EventReplication(ack.clone()),
                &mut engine,
                &mut log,
                &verifier,
                &mut state
            ),
            MeshAction::Idle
        ));
        assert_eq!(state, NodeState::Diverged);
        let mut last_seq: u64 = 1;
        let mut event = ack.clone();
        let source = [2u8; 32];
        let due =
            sequence_event(&mut event, &mut last_seq, 5, source, &mut log, &mut engine, state);
        assert_eq!(due, None);
        let mut metrics = PipelineMetrics::new();
        let fill = order_event(3, fill_payload("binance-1", Side::Buy, 10, 5, 1));
        let mut ledger = Ledger::new();
        let value = on_gateway_event(
            &fill,
            &mut engine,
            &mut log,
            &mut risk,
            &mut ledger,
            &mut metrics,
            0,
            1,
            state,
        );
        assert_eq!(value, None);
        let refused = place_order(
            &intent(5),
            &mut engine,
            &mut risk,
            &ledger,
            &mut metrics,
            10,
            11,
            12,
            source,
            state,
        );
        assert_eq!(refused.unwrap_err().to_text(), "consensus failed: state diverged");
        assert_eq!(engine.state_hash(), before);
        assert_eq!(log.event_count(), 0);
        assert_eq!(ledger.position_qty, 0);
        assert_eq!(risk.open_order_count(), 1);
        assert_eq!(metrics.risk_check.count(), 0);
        assert_eq!(metrics.total_orders + metrics.total_fills + metrics.total_rejects, 0);
    }
}

#[test]
fn inventory_is_bought_again_on_the_test_network_only() {
    let mut ledger = Ledger::new();
    assert!(is_reseed_due(&ledger, true, true));
    assert!(!is_reseed_due(&ledger, false, true));
    assert!(!is_reseed_due(&ledger, true, false));
    ledger.position_qty = -1;
    assert!(!is_reseed_due(&ledger, true, true));
}
