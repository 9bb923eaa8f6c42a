//! A synthetic market for backtests: deterministic, so that runs can be repeated.
use vstd::prelude::*;

use crate::event::{
    Event, EventPayload, EventPayloadView, EventView, OrderBookUpdateEvent,
    OrderBookUpdateEventView, TradeEvent, TradeEventView,
};
use crate::node::NodeId;
use crate::types::{Level, Price, Qty, Side, Symbol};

verus! {

/// The mid price that the market moves around, in pipettes.
pub const BASE_MID: i64 = 7_322_350;

/// When the market begins, in nanoseconds.
pub const BASE_TS: u64 = 1_711_200_000_000_000_000;

/// Nanoseconds between two ticks.
pub const TICK_NS: u64 = 100_000_000;

/// Nanoseconds between a tick and its trade.
pub const TRADE_DELAY_NS: u64 = 50_000_000;

/// Half of the spread in pipettes.
pub const SPREAD_HALF: i64 = 5;

/// Levels on each side of the book.
pub const DEPTH: usize = 20;

/// The random seed of a tick.
pub open spec fn seed_of(tick: u64) -> u64 {
    tick.wrapping_mul(6364136223846793005u64).wrapping_add(1442695040888963407u64)
}

/// The random seed of a tick.
pub fn seed(tick: u64) -> (r: u64)
    ensures
        r == seed_of(tick),
{
    tick.wrapping_mul(6364136223846793005u64).wrapping_add(1442695040888963407u64)
}

/// The random number of a tick, from which its noise is drawn.
pub open spec fn noise_of(seed: u64) -> u64 {
    ((seed >> 33u64) ^ seed).wrapping_mul(0xff51afd7ed558ccdu64)
}

/// The random number of a tick, from which its noise is drawn.
pub fn noise(seed: u64) -> (r: u64)
    ensures
        r == noise_of(seed),
{
    ((seed >> 33u64) ^ seed).wrapping_mul(0xff51afd7ed558ccdu64)
}

/// The quantity of a level, the same on both sides.
pub open spec fn qty_of(seed: u64, depth: int) -> int {
    10_000_000 + depth * 5_000_000 + ((seed.wrapping_add((depth * 17) as u64) >> 40u64) % 20)
        * 1_000_000
}

/// A level of the book.
pub open spec fn level_of(seed: u64, mid: i64, is_bid: bool, depth: int) -> Level {
    Level {
        price: Price(
            (if is_bid {
                mid - SPREAD_HALF - depth * 100
            } else {
                mid + SPREAD_HALF + depth * 100
            }) as i64,
        ),
        qty: Qty(qty_of(seed, depth) as u64),
    }
}

/// Whether all prices around a mid price fit into 64 bits.
pub open spec fn mid_fits(mid: i64) -> bool {
    i64::MIN + 2000 <= mid <= i64::MAX - 2000
}

/// One side of the book.
fn side_levels(seed: u64, mid: i64, is_bid: bool) -> (r: Vec<Level>)
    requires
        mid_fits(mid),
    ensures
        r@ == Seq::new(DEPTH as nat, |d: int| level_of(seed, mid, is_bid, d)),
{
    let mut out: Vec<Level> = Vec::new();
    let mut d: usize = 0;
    while d < DEPTH
        invariant
            d <= DEPTH,
            mid_fits(mid),
            out@.len() == d,
            forall|k: int| 0 <= k < d ==> #[trigger] out@[k] == level_of(seed, mid, is_bid, k),
        decreases DEPTH - d,
    {
        let step: i64 = d as i64 * 100;
        let price: i64 = if is_bid {
            mid - SPREAD_HALF - step
        } else {
            mid + SPREAD_HALF + step
        };
        let draw: u64 = (seed.wrapping_add(d as u64 * 17) >> 40u64) % 20;
        let qty: u64 = 10_000_000 + d as u64 * 5_000_000 + draw * 1_000_000;
        out.push(Level { price: Price(price), qty: Qty(qty) });
        d += 1;
    }
    assert(out@ =~= Seq::new(DEPTH as nat, |d: int| level_of(seed, mid, is_bid, d)));
    out
}

/// The time of a tick.
pub open spec fn time_of(tick: u64) -> int {
    BASE_TS + tick * TICK_NS
}

/// The book of a tick, as a snapshot.
pub fn book_event(tick: u64, mid: i64, seq: u64, symbol: Symbol, source: NodeId) -> (r: Event)
    requires
        mid_fits(mid),
        time_of(tick) <= u64::MAX,
    ensures
        r@ == (EventView {
            seq,
            timestamp: time_of(tick) as u64,
            source: source@,
            payload: EventPayloadView::OrderBookUpdate(
                OrderBookUpdateEventView {
                    symbol: symbol@,
                    bids: Seq::new(
                        DEPTH as nat,
                        |d: int| level_of(seed_of(tick), mid, true, d),
                    ),
                    asks: Seq::new(
                        DEPTH as nat,
                        |d: int| level_of(seed_of(tick), mid, false, d),
                    ),
                    is_snapshot: true,
                    exchange_ts: time_of(tick) as u64,
                },
            ),
        }),
{
    let s: u64 = seed(tick);
    let ts: u64 = BASE_TS + tick * TICK_NS;
    Event::new(
        seq,
        ts,
        source,
        EventPayload::OrderBookUpdate(
            OrderBookUpdateEvent {
                symbol,
                bids: side_levels(s, mid, true),
                asks: side_levels(s, mid, false),
                is_snapshot: true,
                exchange_ts: ts,
            },
        ),
    )
}

/// Whether a tick has a trade.
pub fn has_trade(tick: u64) -> (r: bool)
    ensures
        r == (tick % 3 == 0),
{
    tick % 3 == 0
}

/// The random seed of the trade of a tick.
pub open spec fn trade_seed(tick: u64) -> u64 {
    seed_of(tick).wrapping_mul(0x9e3779b97f4a7c15u64)
}

/// The side of the trade of a tick.
pub open spec fn trade_side(tick: u64) -> Side {
    if trade_seed(tick) >> 63u64 == 0 {
        Side::Buy
    } else {
        Side::Sell
    }
}

/// The price of the trade of a tick: up to four levels into the book.
pub open spec fn trade_price(tick: u64, mid: i64) -> int {
    let reach = ((trade_seed(tick) >> 50u64) % 5) * 100;
    if trade_side(tick) == Side::Buy {
        mid + SPREAD_HALF + reach
    } else {
        mid - SPREAD_HALF - reach
    }
}

/// The trade of a tick.
pub fn trade_event(tick: u64, mid: i64, seq: u64, symbol: Symbol, source: NodeId) -> (r: Event)
    requires
        mid_fits(mid),
        time_of(tick) + TRADE_DELAY_NS <= u64::MAX,
    ensures
        r@ == (EventView {
            seq,
            timestamp: (time_of(tick) + TRADE_DELAY_NS) as u64,
            source: source@,
            payload: EventPayloadView::Trade(
                TradeEventView {
                    symbol: symbol@,
                    price: Price(trade_price(tick, mid) as i64),
                    qty: Qty(
                        (1_000_000 + ((trade_seed(tick) >> 32u64) % 20) * 500_000) as u64,
                    ),
                    side: trade_side(tick),
                    exchange_ts: (time_of(tick) + TRADE_DELAY_NS) as u64,
                },
            ),
        }),
{
    let s: u64 = seed(tick).wrapping_mul(0x9e3779b97f4a7c15u64);
    let ts: u64 = BASE_TS + tick * TICK_NS + TRADE_DELAY_NS;
    let is_buy = s >> 63u64 == 0;
    let reach: i64 = ((s >> 50u64) % 5) as i64 * 100;
    let (side, price) = if is_buy {
        (Side::Buy, mid + SPREAD_HALF + reach)
    } else {
        (Side::Sell, mid - SPREAD_HALF - reach)
    };
    let qty: u64 = 1_000_000 + ((s >> 32u64) % 20) * 500_000;
    Event::new(
        seq,
        ts,
        source,
        EventPayload::Trade(
            TradeEvent { symbol, price: Price(price), qty: Qty(qty), side, exchange_ts: ts },
        ),
    )
}

/// The book of a tick is not crossed, and its sides mirror each other around the mid price with
/// the same quantities.
pub proof fn books_are_symmetric(seed: u64, mid: i64, depth: int)
    requires
        mid_fits(mid),
        0 <= depth < DEPTH,
    ensures
        level_of(seed, mid, true, depth).qty == level_of(seed, mid, false, depth).qty,
        level_of(seed, mid, true, depth).price.0 + level_of(seed, mid, false, depth).price.0 == 2
            * mid,
        level_of(seed, mid, true, depth).price.0 < mid,
        level_of(seed, mid, false, depth).price.0 > mid,
{
}

/// The levels of a made-up side are a hundred pipettes apart, and the best bid and ask ten; each
/// level has more quantity than the least of the one nearer to the middle, between ten million plus
/// five million for each level before it and nineteen million more.
pub proof fn levels_are_evenly_spaced(seed: u64, mid: i64, depth: int)
    requires
        mid_fits(mid),
        0 <= depth < DEPTH,
    ensures
        ({
            let bid = level_of(seed, mid, true, depth);
            let ask = level_of(seed, mid, false, depth);
            &&& level_of(seed, mid, false, 0).price.0 - level_of(seed, mid, true, 0).price.0 == 10
            &&& level_of(seed, mid, true, 0).price.0 - bid.price.0 == 100 * depth
            &&& ask.price.0 - level_of(seed, mid, false, 0).price.0 == 100 * depth
            &&& 10_000_000 + 5_000_000 * depth <= bid.qty.0 <= 29_000_000 + 5_000_000 * depth
        }),
{
}

/// Ticks are a tenth of a second apart, counted from one start.
pub proof fn ticks_are_evenly_spaced(tick: u64, later: u64)
    ensures
        time_of(later) - time_of(tick) == (later - tick) * 100_000_000,
        time_of(0) == 1_711_200_000_000_000_000,
{
    let a = tick as int;
    let b = later as int;
    assert((b - a) * 100_000_000 == b * 100_000_000 - a * 100_000_000);
}

/// A purchase trades at the best ask or up to four levels above it, and a sale at the best bid or up
/// to four levels below.
pub proof fn trades_meet_the_book(tick: u64, mid: i64)
    requires
        mid_fits(mid),
    ensures
        ({
            let price = trade_price(tick, mid);
            let ask = level_of(seed_of(tick), mid, false, 0).price.0;
            let bid = level_of(seed_of(tick), mid, true, 0).price.0;
            &&& trade_side(tick) == Side::Buy ==> ask <= price <= ask + 400 && (price - ask) % 100
                == 0
            &&& trade_side(tick) == Side::Sell ==> bid - 400 <= price <= bid && (bid - price)
                % 100 == 0
        }),
{
    let reach = ((trade_seed(tick) >> 50u64) % 5) * 100;
    assert(0 <= reach <= 400 && reach % 100 == 0);
}

/// The quantity of a level beyond its least is a number of millions from zero to nineteen, taken
/// from the high bits of the seed moved on by seventeen for each level; the side of a trade is its
/// seed's highest bit.
pub proof fn quantities_come_from_the_seed(seed: u64, depth: int, tick: u64)
    requires
        0 <= depth < DEPTH,
        seed + 17 * depth <= u64::MAX,
    ensures
        qty_of(seed, depth) - 10_000_000 - 5_000_000 * depth == 1_000_000 * (((seed + 17 * depth)
            / 1_099_511_627_776) % 20),
        trade_side(tick) == Side::Buy <==> trade_seed(tick) < 0x8000_0000_0000_0000,
{
    let x = (seed + 17 * depth) as u64;
    assert(seed.wrapping_add((depth * 17) as u64) == x);
    assert(x >> 40u64 == x / 1_099_511_627_776u64) by (bit_vector);
    let t = trade_seed(tick);
    assert(t >> 63u64 == 0 <==> t < 0x8000_0000_0000_0000u64) by (bit_vector);
}

} // verus!
