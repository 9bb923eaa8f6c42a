use atomic_mesh::book::OrderBook;
use atomic_mesh::router::{RoutingAlgo, SmartOrderRouter};
use atomic_mesh::types::{Level, Price, Qty, Side, Symbol, Venue};

fn sym(venue: Venue) -> Symbol {
    Symbol::new("BTC", "USDT", venue)
}

fn book_with_levels(symbol: Symbol, bids: &[(i64, u64)], asks: &[(i64, u64)]) -> OrderBook {
    let mut book = OrderBook::new(symbol);
    let bid_levels: Vec<Level> = bids
        .iter()
        .map(|(p, q)| Level { price: Price(*p), qty: Qty(*q) })
        .collect();
    let ask_levels: Vec<Level> = asks
        .iter()
        .map(|(p, q)| Level { price: Price(*p), qty: Qty(*q) })
        .collect();
    book.apply_snapshot(&bid_levels, &ask_levels, 1, 0);
    book
}

#[test]
fn best_venue_picks_lowest_ask_for_buy() {
    let mut router = SmartOrderRouter::new();
    let s1 = sym(Venue::Binance);
    let s2 = sym(Venue::Bybit);
    router.update_book(
        &s1.pair(),
        Venue::Binance,
        book_with_levels(s1.clone(), &[(99, 10)], &[(101, 10)]),
    );
    router.update_book(
        &s2.pair(),
        Venue::Bybit,
        book_with_levels(s2.clone(), &[(99, 10)], &[(100, 10)]),
    );

    let slices = router.route(&s1, Side::Buy, Qty(5), RoutingAlgo::BestVenue);
    assert_eq!(slices.len(), 1);
    assert_eq!(slices[0].venue, Venue::Bybit);
    assert_eq!(slices[0].price, Price(100));
}

#[test]
fn best_venue_picks_highest_bid_for_sell() {
    let mut router = SmartOrderRouter::new();
    let s1 = sym(Venue::Binance);
    let s2 = sym(Venue::Bybit);
    router.update_book(
        &s1.pair(),
        Venue::Binance,
        book_with_levels(s1.clone(), &[(102, 10)], &[(105, 10)]),
    );
    router.update_book(
        &s2.pair(),
        Venue::Bybit,
        book_with_levels(s2.clone(), &[(100, 10)], &[(105, 10)]),
    );

    let slices = router.route(&s1, Side::Sell, Qty(5), RoutingAlgo::BestVenue);
    assert_eq!(slices.len(), 1);
    assert_eq!(slices[0].venue, Venue::Binance);
    assert_eq!(slices[0].price, Price(102));
}

#[test]
fn vwap_splits_proportional_to_depth() {
    let mut router = SmartOrderRouter::new();
    let s1 = sym(Venue::Binance);
    let s2 = sym(Venue::Bybit);
    router.update_book(
        &s1.pair(),
        Venue::Binance,
        book_with_levels(s1.clone(), &[(99, 30)], &[(101, 30)]),
    );
    router.update_book(
        &s2.pair(),
        Venue::Bybit,
        book_with_levels(s2.clone(), &[(99, 10)], &[(101, 10)]),
    );

    let slices = router.route(&s1, Side::Buy, Qty(100), RoutingAlgo::VWAP);
    assert_eq!(slices.len(), 2);
    let total_qty: u64 = slices.iter().map(|s| s.qty.0).sum();
    assert_eq!(total_qty, 100);
    assert_eq!(slices[0].qty, Qty(75));
}

#[test]
fn twap_splits_into_equal_slices() {
    let mut router = SmartOrderRouter::new();
    let s = sym(Venue::Binance);
    router.update_book(
        &s.pair(),
        Venue::Binance,
        book_with_levels(s.clone(), &[(99, 100)], &[(101, 100)]),
    );

    let slices = router.route(
        &s,
        Side::Buy,
        Qty(100),
        RoutingAlgo::TWAP { slices: 4, interval_ms: 1000 },
    );
    assert_eq!(slices.len(), 4);
    for slice in &slices {
        assert_eq!(slice.qty, Qty(25));
    }
}

#[test]
fn sweep_fills_across_levels() {
    let mut router = SmartOrderRouter::new();
    let s = sym(Venue::Binance);
    router.update_book(
        &s.pair(),
        Venue::Binance,
        book_with_levels(s.clone(), &[(99, 50)], &[(100, 20), (101, 30)]),
    );

    let slices = router.route(&s, Side::Buy, Qty(40), RoutingAlgo::LiquiditySweep);
    assert!(!slices.is_empty());
    let total_qty: u64 = slices.iter().map(|s| s.qty.0).sum();
    assert_eq!(total_qty, 40);
}

#[test]
fn empty_book_returns_no_slices() {
    let router = SmartOrderRouter::new();
    let s = sym(Venue::Binance);
    let slices = router.route(&s, Side::Buy, Qty(100), RoutingAlgo::BestVenue);
    assert!(slices.is_empty());
}

#[test]
fn sweep_takes_the_best_prices_first() {
    let mut router = SmartOrderRouter::new();
    let s1 = sym(Venue::Binance);
    let s2 = sym(Venue::Bybit);
    router.update_book(
        &s1.pair(),
        Venue::Binance,
        book_with_levels(s1.clone(), &[], &[(100, 5), (103, 5)]),
    );
    router.update_book(
        &s2.pair(),
        Venue::Bybit,
        book_with_levels(s2.clone(), &[], &[(101, 5)]),
    );
    let slices = router.route(&s1, Side::Buy, Qty(12), RoutingAlgo::LiquiditySweep);
    let prices: Vec<i64> = slices.iter().map(|s| s.price.0).collect();
    let qtys: Vec<u64> = slices.iter().map(|s| s.qty.0).collect();
    assert_eq!(prices, vec![100, 101, 103]);
    assert_eq!(qtys, vec![5, 5, 2]);
}

#[test]
fn twap_slices_are_equal_and_leave_a_rest() {
    let mut router = SmartOrderRouter::new();
    let s = sym(Venue::Binance);
    router.update_book(
        &s.pair(),
        Venue::Binance,
        book_with_levels(s.clone(), &[(99, 100)], &[(101, 100)]),
    );
    let slices = router.route(
        &s,
        Side::Buy,
        Qty(10),
        RoutingAlgo::TWAP { slices: 3, interval_ms: 1 },
    );
    let total: u64 = slices.iter().map(|s| s.qty.0).sum();
    assert_eq!(total, 9);
    assert_eq!(slices.len(), 3);
    let best = router.route(&s, Side::Buy, Qty(3), RoutingAlgo::BestVenue);
    assert_eq!(best.len(), 1);
    assert_eq!(router.route_twap(&s, Side::Buy, Qty(10), 3).len(), 3);
    assert_eq!(router.route_twap(&s, Side::Buy, Qty(2), 3).len(), 0);
    for slice in &slices {
        assert_eq!(slice.venue, best[0].venue);
        assert_eq!(slice.price, best[0].price);
        assert_eq!(slice.qty, best[0].qty);
    }
    let twap = RoutingAlgo::TWAP { slices: 11, interval_ms: 1 };
    assert!(router.route(&s, Side::Buy, Qty(10), twap).is_empty());
    let empty = SmartOrderRouter::new();
    let twap = RoutingAlgo::TWAP { slices: 2, interval_ms: 1 };
    assert!(empty.route(&s, Side::Buy, Qty(10), twap).is_empty());
}
