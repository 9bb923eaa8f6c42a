use atomic_mesh::book::OrderBook;
use atomic_mesh::types::{Level, Price, Qty, Side, Symbol, Venue};

fn test_symbol() -> Symbol {
    Symbol::new("BTC", "USDT", Venue::Binance)
}

fn level(price: i64, qty: u64) -> Level {
    Level { price: Price(price), qty: Qty(qty) }
}

#[test]
fn snapshot_and_best() {
    let mut book = OrderBook::new(test_symbol());
    let bids = vec![
        Level { price: Price(60000), qty: Qty(100) },
        Level { price: Price(59900), qty: Qty(200) },
    ];
    let asks = vec![
        Level { price: Price(60100), qty: Qty(150) },
        Level { price: Price(60200), qty: Qty(300) },
    ];

    book.apply_snapshot(&bids, &asks, 1, 1000);

    assert_eq!(book.best_bid().unwrap().price.0, 60000);
    assert_eq!(book.best_ask().unwrap().price.0, 60100);
    assert_eq!(book.spread().unwrap(), 100);
}

#[test]
fn delta_removes_level() {
    let mut book = OrderBook::new(test_symbol());
    book.apply_snapshot(
        &[Level { price: Price(100), qty: Qty(10) }],
        &[Level { price: Price(101), qty: Qty(20) }],
        1,
        1000,
    );

    book.apply_delta(&[Level { price: Price(100), qty: Qty(0) }], &[], 2, 2000);

    assert!(book.best_bid().is_none());
}

#[test]
fn simulate_buy_fill() {
    let mut book = OrderBook::new(test_symbol());
    let asks = vec![
        Level { price: Price(100), qty: Qty(50) },
        Level { price: Price(101), qty: Qty(50) },
        Level { price: Price(102), qty: Qty(50) },
    ];
    book.apply_snapshot(&[], &asks, 1, 1000);

    let (avg_price, filled) = book.simulate_fill(Side::Buy, Qty(80)).unwrap();
    assert_eq!(filled.0, 80);
    assert_eq!(avg_price.0, 100);
}

#[test]
fn fills_need_the_whole_quantity() {
    let mut book = OrderBook::new(test_symbol());
    book.apply_snapshot(&[level(99, 5)], &[level(100, 50)], 1, 0);
    assert!(book.simulate_fill(Side::Buy, Qty(51)).is_none());
    assert!(book.simulate_fill(Side::Buy, Qty(0)).is_none());
    assert_eq!(book.simulate_fill(Side::Sell, Qty(5)), Some((Price(99), Qty(5))));
}

#[test]
fn depth_and_order_of_levels() {
    let mut book = OrderBook::new(test_symbol());
    book.apply_snapshot(
        &[level(98, 1), level(100, 2), level(99, 3)],
        &[level(103, 4), level(101, 5), level(102, 6)],
        7,
        8,
    );
    let bids: Vec<i64> = book.top_bids(2).iter().map(|l| l.price.0).collect();
    let asks: Vec<i64> = book.top_asks(9).iter().map(|l| l.price.0).collect();
    assert_eq!(bids, vec![100, 99]);
    assert_eq!(asks, vec![101, 102, 103]);
    assert_eq!(book.bid_depth(), 6);
    assert_eq!(book.ask_depth(), 15);
    assert_eq!(book.bid_depth_to_price(Price(99)), 5);
    assert_eq!(book.ask_depth_to_price(Price(102)), 11);
    assert_eq!(book.mid_price(), Some(Price(100)));
    assert_eq!(book.bid_count(), 3);
    assert_eq!(book.ask_count(), 3);
    assert_eq!(book.last_update_seq, 7);
    assert_eq!(book.last_update_ts, 8);
}

#[test]
fn snapshots_replace_and_deltas_keep() {
    let mut book = OrderBook::new(test_symbol());
    book.apply_snapshot(&[level(10, 1)], &[level(20, 1)], 1, 0);
    book.apply_delta(&[level(11, 2)], &[level(20, 9)], 2, 0);
    assert_eq!(book.bid_count(), 2);
    assert_eq!(book.best_ask(), Some(level(20, 9)));
    assert_eq!(book.top_bids(2), vec![level(11, 2), level(10, 1)]);
    book.apply_snapshot(&[level(5, 0)], &[], 3, 0);
    assert_eq!(book.bid_count(), 0);
    assert_eq!(book.ask_count(), 0);
    assert_eq!(book.spread(), None);
}
