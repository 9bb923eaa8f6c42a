use atomic_mesh::book::OrderBook;
use atomic_mesh::event::{
    Event, EventPayload, OrderBookUpdateEvent, OrderFillEvent, TradeEvent,
};
use atomic_mesh::inventory::InventoryManager;
use atomic_mesh::market_maker::MarketMaker;
use atomic_mesh::microprice::{compute, compute_weighted, imbalance};
use atomic_mesh::strategy::{
    Strategy, StrategyCommand, StrategyContext, StrategyEngine, Table,
};
use atomic_mesh::toxicity::ToxicityTracker;
use atomic_mesh::types::{Level, OrderId, Position, Price, Qty, Side, Symbol, Venue};

fn make_symbol() -> Symbol {
    Symbol::new("BTC", "USDT", Venue::Binance)
}

fn make_mm() -> MarketMaker {
    MarketMaker::new(
        "mm_test",
        make_symbol(),
        Venue::Binance,
        10_000_000,
        100_000_000,
        5,
        5000,
    )
}

fn book_event(seq: u64, best_bid: i64, best_ask: i64) -> Event {
    Event::new(
        seq,
        seq * 1_000_000,
        [0u8; 32],
        EventPayload::OrderBookUpdate(OrderBookUpdateEvent {
            symbol: make_symbol(),
            bids: vec![
                Level { price: Price(best_bid), qty: Qty(50_000_000) },
                Level { price: Price(best_bid - 100), qty: Qty(30_000_000) },
            ],
            asks: vec![
                Level { price: Price(best_ask), qty: Qty(50_000_000) },
                Level { price: Price(best_ask + 100), qty: Qty(30_000_000) },
            ],
            is_snapshot: true,
            exchange_ts: 0,
        }),
    )
}

fn fill_event(seq: u64, side: Side, qty: u64, price: i64) -> Event {
    Event::new(
        seq,
        seq * 1_000_000,
        [0u8; 32],
        EventPayload::OrderFill(OrderFillEvent {
            order_id: OrderId(format!("test-{}", seq)),
            symbol: make_symbol(),
            side,
            price: Price(price),
            qty: Qty(qty),
            remaining: Qty(0),
            fee: 0,
            is_maker: true,
            venue: Venue::Binance,
        }),
    )
}

fn ctx() -> StrategyContext<'static> {
    let books: &'static Table<OrderBook> = Box::leak(Box::new(Table::new()));
    let positions: &'static Table<Position> = Box::leak(Box::new(Table::new()));
    StrategyContext { books, positions, seq: 0, timestamp: 0 }
}

fn lvl(price: i64, qty: u64) -> Level {
    Level { price: Price(price), qty: Qty(qty) }
}

#[test]
fn warmup_produces_no_commands() {
    let mut mm = make_mm();
    let c = ctx();
    for i in 0..2 {
        let cmds = mm.on_event(&book_event(i, 7_000_000, 7_001_000), &c);
        assert!(cmds.is_empty(), "warmup tick {} should be quiet", i);
    }
}

#[test]
fn first_quote_after_warmup() {
    let mut mm = make_mm();
    let c = ctx();
    for i in 0..2 {
        mm.on_event(&book_event(i, 7_000_000, 7_001_000), &c);
    }
    let cmds = mm.on_event(&book_event(2, 7_000_000, 7_001_000), &c);
    let buys: Vec<_> = cmds
        .iter()
        .filter(|c| matches!(c, StrategyCommand::PlaceOrder { side: Side::Buy, .. }))
        .collect();
    assert!(!buys.is_empty(), "should place a bid");
}

#[test]
fn after_fill_quotes_both_sides() {
    let mut mm = make_mm();
    let c = ctx();
    for i in 0..2 {
        mm.on_event(&book_event(i, 7_000_000, 7_001_000), &c);
    }
    mm.on_event(&book_event(2, 7_000_000, 7_001_000), &c);
    mm.on_event(&fill_event(100, Side::Buy, 10_000_000, 7_000_500), &c);

    for i in 5..30 {
        let cmds = mm.on_event(&book_event(i, 7_010_000, 7_011_000), &c);
        if cmds.len() >= 2 {
            let has_buy = cmds
                .iter()
                .any(|c| matches!(c, StrategyCommand::PlaceOrder { side: Side::Buy, .. }));
            let has_sell = cmds
                .iter()
                .any(|c| matches!(c, StrategyCommand::PlaceOrder { side: Side::Sell, .. }));
            assert!(has_buy, "should have bid");
            assert!(has_sell, "should have ask after fill");
            return;
        }
    }
    assert!(mm.inventory().can_sell());
}

#[test]
fn toxic_flow_cancels_quotes() {
    let mut mm = make_mm();
    let c = ctx();
    for i in 0..20 {
        mm.on_event(&book_event(i, 7_000_000, 7_001_000), &c);
    }

    for i in 0..50 {
        let trade = Event::new(
            100 + i,
            0,
            [0u8; 32],
            EventPayload::Trade(TradeEvent {
                symbol: make_symbol(),
                price: Price(7_000_500),
                qty: Qty(5_000_000),
                side: Side::Buy,
                exchange_ts: 0,
            }),
        );
        let cmds = mm.on_event(&trade, &c);
        if cmds.iter().any(|c| matches!(c, StrategyCommand::CancelAll { .. })) {
            return;
        }
    }
}

#[test]
fn saved_market_makers_come_back() {
    let mut mm = make_mm();
    let c = ctx();
    for i in 0..3 {
        mm.on_event(&book_event(i, 7_000_000, 7_001_000), &c);
    }
    mm.on_event(&fill_event(9, Side::Buy, 123, 7_000_500), &c);
    let saved = mm.snapshot();
    let mut other = make_mm();
    other.restore(&saved);
    assert_eq!(other.snapshot(), saved);
    assert_eq!(other.inventory().position(), 123);
    assert_eq!(mm.id(), "mm_test");
}

#[test]
fn strategy_engine_feeds_all_strategies() {
    let mut engine = StrategyEngine::new();
    engine.register(make_mm());
    engine.register(make_mm());
    engine.start_all();
    assert_eq!(engine.strategy_count(), 2);
    let mut commands = Vec::new();
    for i in 0..3 {
        let event = book_event(i, 7_000_000, 7_001_000);
        assert!(engine.can_process(&event));
        commands = engine.process_event(&event);
    }
    assert_eq!(commands.len(), 2 * first_quote_len());
    engine.update_book("BTC/USDT".to_string(), OrderBook::new(make_symbol()));
    engine.update_position("BTC/USDT".to_string(), Position::flat(make_symbol()));
    engine.stop_all();
}

fn first_quote_len() -> usize {
    let mut mm = make_mm();
    let c = ctx();
    for i in 0..2 {
        mm.on_event(&book_event(i, 7_000_000, 7_001_000), &c);
    }
    mm.on_event(&book_event(2, 7_000_000, 7_001_000), &c).len()
}

#[test]
fn quotes_stay_on_their_side_of_fair_value() {
    let mut mm = make_mm();
    let c = ctx();
    for i in 0..2 {
        mm.on_event(&book_event(i, 7_000_000, 7_001_000), &c);
    }
    for cmd in mm.on_event(&book_event(2, 7_000_000, 7_001_000), &c) {
        if let StrategyCommand::PlaceOrder { side, price, qty, .. } = cmd {
            assert_eq!(side, Side::Buy);
            assert!(price.0 < 7_000_500);
            assert_eq!(qty, Qty(10_000_000));
        }
    }
}

#[test]
fn tables_keep_the_last_value() {
    let mut table: Table<Position> = Table::new();
    assert!(table.get("a").is_none());
    table.insert("a".to_string(), Position::flat(make_symbol()));
    let mut long = Position::flat(make_symbol());
    long.qty = Qty(3);
    table.insert("a".to_string(), long);
    assert_eq!(table.get("a").unwrap().qty, Qty(3));
}

#[test]
fn fill_buy_increases_position() {
    let mut inv = InventoryManager::new(100_000_000, 5000);
    inv.on_fill(Side::Buy, 10_000_000);
    assert_eq!(inv.position(), 10_000_000);
}

#[test]
fn fill_sell_decreases_position() {
    let mut inv = InventoryManager::new(100_000_000, 5000);
    inv.on_fill(Side::Buy, 10_000_000);
    inv.on_fill(Side::Sell, 3_000_000);
    assert_eq!(inv.position(), 7_000_000);
}

#[test]
fn spot_clamp_no_negative() {
    let mut inv = InventoryManager::new(100_000_000, 5000);
    inv.on_fill(Side::Sell, 10_000_000);
    assert_eq!(inv.position(), 0);
}

#[test]
fn skew_flat_is_zero() {
    let inv = InventoryManager::new(100_000_000, 5000);
    assert_eq!(inv.compute_skew(7000), 0);
}

#[test]
fn skew_long_is_positive() {
    let mut inv = InventoryManager::new(100_000_000, 5000);
    inv.on_fill(Side::Buy, 50_000_000);
    let skew = inv.compute_skew(7000);
    assert!(skew > 0, "long position should produce positive skew");
    assert_eq!(skew, 1750);
}

#[test]
fn at_max_blocks_buying() {
    let mut inv = InventoryManager::new(100_000_000, 5000);
    inv.on_fill(Side::Buy, 100_000_000);
    assert!(inv.at_max());
    assert!(inv.can_sell());
}

#[test]
fn sellable_qty_capped() {
    let mut inv = InventoryManager::new(100_000_000, 5000);
    inv.on_fill(Side::Buy, 5_000_000);
    assert_eq!(inv.sellable_qty(10_000_000), 5_000_000);
}

#[test]
fn microprice_equal_volumes() {
    let bid = lvl(100_00, 500);
    let ask = lvl(101_00, 500);
    let mp = compute(&bid, &ask);
    assert_eq!(mp.0, 100_50);
}

#[test]
fn microprice_heavier_bid() {
    let bid = lvl(100_00, 900);
    let ask = lvl(101_00, 100);
    let mp = compute(&bid, &ask);
    assert!(mp.0 > 100_50);
    assert_eq!(mp.0, 100_90);
}

#[test]
fn imbalance_balanced() {
    let bids = vec![lvl(100_00, 500)];
    let asks = vec![lvl(101_00, 500)];
    assert_eq!(imbalance(&bids, &asks, 5), 0);
}

#[test]
fn imbalance_bullish() {
    let bids = vec![lvl(100_00, 800)];
    let asks = vec![lvl(101_00, 200)];
    let imb = imbalance(&bids, &asks, 5);
    assert_eq!(imb, 6000);
}

#[test]
fn weighted_empty_returns_zero() {
    assert_eq!(compute_weighted(&[], &[], 5).0, 0);
}

#[test]
fn weights_count_down_from_the_depth() {
    let bids = vec![lvl(100, 1), lvl(90, 1)];
    let asks = vec![lvl(110, 1), lvl(200, 1)];
    assert_eq!(compute_weighted(&bids, &asks, 5).0, 122);
    assert_eq!(compute_weighted(&bids, &asks, 2).0, 118);
    assert_eq!(compute_weighted(&bids, &asks, 0).0, 105);
}

#[test]
fn imbalance_changes_sign_with_the_sides() {
    let bids = vec![lvl(100, 1), lvl(99, 5)];
    let asks = vec![lvl(101, 2), lvl(102, 1)];
    assert_eq!(imbalance(&bids, &asks, 2), 3333);
    assert_eq!(imbalance(&asks, &bids, 2), -3333);
    assert_eq!(imbalance(&bids, &asks, 0), 0);
}

#[test]
fn weighted_lies_between_the_prices() {
    let bids = vec![lvl(100, 3), lvl(99, 1)];
    let asks = vec![lvl(102, 1), lvl(103, 1)];
    let mp = compute_weighted(&bids, &asks, 2).0;
    assert!(mp >= 99 && mp <= 103);
}

#[test]
fn vpin_balanced_is_zero() {
    let mut t = ToxicityTracker::new(100, 500, 6000);
    t.on_trade(Side::Buy, 100, 1000);
    t.on_trade(Side::Sell, 100, 1001);
    assert_eq!(t.vpin(), 0);
}

#[test]
fn vpin_one_sided_is_max() {
    let mut t = ToxicityTracker::new(100, 500, 6000);
    for _ in 0..10 {
        t.on_trade(Side::Buy, 100, 1000);
    }
    assert_eq!(t.vpin(), 10000);
    assert!(t.is_toxic());
}

#[test]
fn volatility_increases_on_price_move() {
    let mut t = ToxicityTracker::new(100, 5000, 6000);
    t.on_trade(Side::Buy, 100, 1000);
    t.on_trade(Side::Buy, 100, 1100);
    assert!(t.volatility() > 0);
}

#[test]
fn spread_multiplier_baseline() {
    let t = ToxicityTracker::new(100, 500, 6000);
    assert_eq!(t.spread_multiplier(), 10000);
}

#[test]
fn window_eviction() {
    let mut t = ToxicityTracker::new(3, 500, 6000);
    t.on_trade(Side::Buy, 100, 1000);
    t.on_trade(Side::Buy, 100, 1000);
    t.on_trade(Side::Buy, 100, 1000);
    t.on_trade(Side::Sell, 100, 1000);
    let v = t.vpin();
    assert!(v > 3000 && v < 4000, "expected ~3333, got {}", v);
}

#[test]
fn trades_older_than_the_window_have_no_effect() {
    let mut long = ToxicityTracker::new(3, 500, 3332);
    let mut short = ToxicityTracker::new(3, 500, 3332);
    for qty in [7u64, 900, 4, 13] {
        long.on_trade(Side::Sell, qty, 1000);
    }
    for t in [&mut long, &mut short] {
        t.on_trade(Side::Buy, 100, 1000);
        t.on_trade(Side::Sell, 50, 1000);
        t.on_trade(Side::Buy, 0, 1000);
        assert_eq!(t.vpin(), 3333);
        assert!(t.is_toxic());
    }
    let mut none = ToxicityTracker::new(0, 500, 6000);
    none.on_trade(Side::Buy, 100, 1000);
    assert_eq!(none.vpin(), 0);
}
