//! Market data events of a node: their place in the sequence, and the order books they update.
use vstd::prelude::*;

use crate::book;
use crate::book::{OrderBook, OrderBookView};
use crate::event::{
    Event, EventPayload, EventPayloadView, EventView, OrderBookUpdateEvent,
    OrderBookUpdateEventView,
};
use crate::execution::ExecutionEngine;
use crate::log;
use crate::log::EventLog;
use crate::node::{NodeId, NodeState};
use crate::risk::{RiskEngine, RiskView};
use crate::strategy::Table;
use crate::types::{Symbol, SymbolView};

verus! {

/// After how many events the log is written out.
pub const FLUSH_INTERVAL: u64 = 100;

/// Gives an event the next sequence number, a time and a source, appends it to the log, and
/// applies it to the engine. Says whether the log should be written out. A node that has halted
/// takes no event.
pub fn sequence_event(
    event: &mut Event,
    last_seq: &mut u64,
    now: u64,
    source: NodeId,
    event_log: &mut EventLog,
    engine: &mut ExecutionEngine,
    state: NodeState,
) -> (r: Option<bool>)
    requires
        *old(last_seq) < u64::MAX,
        old(event_log).count() < u64::MAX,
        old(engine).wf(),
        old(engine)@.fill_fits(old(event)@),
    ensures
        final(engine).wf(),
        final(event_log).is_writable() == old(event_log).is_writable(),
        final(event_log).file() == old(event_log).file(),
        if state.halted() {
            &&& r is None
            &&& *final(last_seq) == *old(last_seq)
            &&& final(event)@ == old(event)@
            &&& final(event_log).buffered() == old(event_log).buffered()
            &&& final(event_log).count() == old(event_log).count()
            &&& final(engine)@ == old(engine)@
        } else {
            &&& *final(last_seq) == *old(last_seq) + 1
            &&& final(event)@ == (EventView {
                seq: *final(last_seq),
                timestamp: now,
                source: source@,
                ..old(event)@
            })
            &&& final(event_log).buffered() == old(event_log).buffered() + (if old(
                event_log,
            ).is_writable() {
                log::frame(final(event)@)
            } else {
                Seq::empty()
            })
            &&& final(event_log).count() == old(event_log).count() + (if old(
                event_log,
            ).is_writable() {
                1int
            } else {
                0
            })
            &&& final(engine)@ == old(engine)@.after(final(event)@)
            &&& r == Some(old(event_log).is_writable() && flush_due(*final(last_seq)))
        },
{
    if state.is_halted() {
        return None;
    }
    *last_seq = *last_seq + 1;
    event.seq = *last_seq;
    event.timestamp = now;
    event.source = source;
    assert(old(event_log).buffered() + Seq::<u8>::empty() =~= old(event_log).buffered());
    let due = match event_log.append(event) {
        Ok(_) => *last_seq % FLUSH_INTERVAL == 0,
        Err(_) => false,
    };
    let _ = engine.process_event(event);
    Some(due)
}

/// The book of a symbol, empty where there is none yet.
pub open spec fn book_before(
    books: Map<Seq<char>, OrderBookView>,
    update: OrderBookUpdateEventView,
) -> OrderBookView {
    if books.contains_key(update.symbol.pair()) {
        books[update.symbol.pair()]
    } else {
        OrderBookView {
            symbol: update.symbol,
            bids: Map::empty(),
            asks: Map::empty(),
            last_update_seq: 0,
            last_update_ts: 0,
        }
    }
}

/// A book after an update: a snapshot replaces all levels, anything else sets some.
pub open spec fn book_after(
    before: OrderBookView,
    update: OrderBookUpdateEventView,
    seq: u64,
    ts: u64,
) -> OrderBookView {
    OrderBookView {
        symbol: before.symbol,
        bids: if update.is_snapshot {
            book::from_levels(update.bids)
        } else {
            book::with_levels(before.bids, update.bids)
        },
        asks: if update.is_snapshot {
            book::from_levels(update.asks)
        } else {
            book::with_levels(before.asks, update.asks)
        },
        last_update_seq: seq,
        last_update_ts: ts,
    }
}

/// Updates the book of a symbol, and returns a copy of it.
pub fn update_book(books: &mut Table<OrderBook>, update: &OrderBookUpdateEvent, seq: u64, ts: u64) -> (r:
    OrderBook)
    requires
        old(books).wf(),
    ensures
        final(books).wf(),
        r@ == book_after(book_before(old(books).map(), update@), update@, seq, ts),
        final(books).map() == old(books).map().insert(update@.symbol.pair(), r@),
{
    let key = update.symbol.pair();
    let mut current = match books.get(key.as_str()) {
        Some(b) => b.clone(),
        None => OrderBook::new(update.symbol.clone()),
    };
    if update.is_snapshot {
        current.apply_snapshot(update.bids.as_slice(), update.asks.as_slice(), seq, ts);
    } else {
        current.apply_delta(update.bids.as_slice(), update.asks.as_slice(), seq, ts);
    }
    books.insert(key, current.clone());
    current
}

/// Whether the difference of the best prices of a book fits into 64 bits.
pub open spec fn spread_fits(book: OrderBookView) -> bool {
    match (book.best_bid(), book.best_ask()) {
        (Some(bid), Some(ask)) => i64::MIN <= ask.price.0 - bid.price.0 <= i64::MAX,
        _ => true,
    }
}

/// Whether the difference of the best prices of a book fits into 64 bits.
pub fn is_spread_in_range(book: &OrderBook) -> (r: bool)
    ensures
        r == spread_fits(book@),
{
    match (book.best_bid(), book.best_ask()) {
        (Some(bid), Some(ask)) => {
            let spread: i128 = ask.price.0 as i128 - bid.price.0 as i128;
            i64::MIN as i128 <= spread && spread <= i64::MAX as i128
        },
        _ => true,
    }
}

/// The symbol that commands for an event are about: that of market data or of a fill, else the
/// one that the node trades.
pub open spec fn traded_symbol(payload: EventPayloadView, primary: SymbolView) -> SymbolView {
    match payload {
        EventPayloadView::OrderBookUpdate(update) => update.symbol,
        EventPayloadView::Trade(trade) => trade.symbol,
        EventPayloadView::OrderFill(fill) | EventPayloadView::OrderPartialFill(fill) => fill.symbol,
        _ => primary,
    }
}

/// The symbol that commands for an event are about.
pub fn command_symbol(payload: &EventPayload, primary: &Symbol) -> (r: Symbol)
    ensures
        r@ == traded_symbol(payload@, primary@),
{
    match payload {
        EventPayload::OrderBookUpdate(update) => update.symbol.clone(),
        EventPayload::Trade(trade) => trade.symbol.clone(),
        EventPayload::OrderFill(fill) | EventPayload::OrderPartialFill(fill) => fill.symbol.clone(),
        _ => primary.clone(),
    }
}

/// Tells the risk engine the spread of a book that has both sides.
pub fn watch_spread(book: &OrderBook, risk_engine: &mut RiskEngine)
    requires
        spread_fits(book@),
    ensures
        final(risk_engine)@ == spread_seen(old(risk_engine)@, book@),
{
    if let Some(spread) = book.spread() {
        risk_engine.update_spread(spread);
    }
}

/// Whether the log is written out after the event with a sequence number.
pub open spec fn flush_due(seq: u64) -> bool {
    seq % FLUSH_INTERVAL == 0
}

/// The log is written out after every hundredth event.
pub proof fn hundreds_are_flushed(hundreds: nat, rest: nat)
    requires
        rest < 100,
        100 * hundreds + rest <= u64::MAX,
    ensures
        flush_due((100 * hundreds + rest) as u64) <==> rest == 0,
{
}

/// The risk engine's state once it was told the spread of a book that has both sides.
pub open spec fn spread_seen(risk: RiskView, book: OrderBookView) -> RiskView {
    match (book.best_bid(), book.best_ask()) {
        (Some(bid), Some(ask)) => RiskView {
            current_spread: (ask.price.0 - bid.price.0) as i64,
            ..risk
        },
        _ => risk,
    }
}

/// The spread that the risk engine is told is that from the highest bid to the lowest ask: no other
/// bid and ask are nearer to each other. A book that lacks a side says nothing.
pub proof fn spread_is_the_smallest_distance(
    risk: RiskView,
    book: OrderBookView,
    bid: i64,
    ask: i64,
)
    requires
        book.bids.dom().finite(),
        book.asks.dom().finite(),
        spread_fits(book),
        book.bids.contains_key(bid),
        book.asks.contains_key(ask),
    ensures
        ({
            let after = spread_seen(risk, book);
            &&& after.current_spread <= ask - bid
            &&& exists|b: i64, a: i64|
                #![trigger book.bids.contains_key(b), book.asks.contains_key(a)]
                book.bids.contains_key(b) && book.asks.contains_key(a) && after.current_spread == a
                    - b
            &&& after.killed == risk.killed && after.limits == risk.limits
            &&& after.total_pnl == risk.total_pnl && after.circuit_breaker == risk.circuit_breaker
            &&& after.open_order_count == risk.open_order_count
        }),
{
    book::best_prices(book, bid);
    book::best_prices(book, ask);
    let b = book.best_bid()->Some_0.price.0;
    let a = book.best_ask()->Some_0.price.0;
    assert(book.bids.contains_key(b) && book.asks.contains_key(a));
}

/// A snapshot replaces what was known of a book: each side holds just the levels of the update with
/// some quantity. Other updates leave every price alone that they do not name, and set those that
/// they do.
pub proof fn updates_change_named_prices(
    before: OrderBookView,
    update: OrderBookUpdateEventView,
    seq: u64,
    ts: u64,
    price: i64,
)
    ensures
        ({
            let after = book_after(before, update, seq, ts);
            &&& after.last_update_seq == seq && after.last_update_ts == ts
            &&& after.symbol == before.symbol
            &&& update.is_snapshot ==> {
                &&& after.bids.contains_key(price) <==> exists|i: int|
                    0 <= i < update.bids.len() && (#[trigger] update.bids[i]).price.0 == price
                        && update.bids[i].qty.0 > 0
                &&& after.asks.contains_key(price) <==> exists|i: int|
                    0 <= i < update.asks.len() && (#[trigger] update.asks[i]).price.0 == price
                        && update.asks[i].qty.0 > 0
            }
            &&& !update.is_snapshot && (forall|i: int|
                0 <= i < update.bids.len() ==> (#[trigger] update.bids[i]).price.0 != price) ==> {
                &&& after.bids.contains_key(price) <==> before.bids.contains_key(price)
                &&& before.bids.contains_key(price) ==> after.bids[price] == before.bids[price]
            }
            &&& !update.is_snapshot && (forall|i: int|
                0 <= i < update.asks.len() ==> (#[trigger] update.asks[i]).price.0 != price) ==> {
                &&& after.asks.contains_key(price) <==> before.asks.contains_key(price)
                &&& before.asks.contains_key(price) ==> after.asks[price] == before.asks[price]
            }
        }),
{
    book::snapshots_hold_their_levels(update.bids, price);
    book::snapshots_hold_their_levels(update.asks, price);
    if !update.is_snapshot {
        if forall|i: int|
            0 <= i < update.bids.len() ==> (#[trigger] update.bids[i]).price.0 != price {
            book::other_levels_stay(before.bids, update.bids, price);
        }
        if forall|i: int|
            0 <= i < update.asks.len() ==> (#[trigger] update.asks[i]).price.0 != price {
            book::other_levels_stay(before.asks, update.asks, price);
        }
    }
}

/// A price that an update names last with a level holds that level's quantity afterwards, on the
/// side that the update names it for.
pub proof fn updates_set_their_levels(
    before: OrderBookView,
    update: OrderBookUpdateEventView,
    seq: u64,
    ts: u64,
    i: int,
)
    requires
        !update.is_snapshot,
    ensures
        ({
            let after = book_after(before, update, seq, ts);
            let bid = update.bids[i];
            let ask = update.asks[i];
            &&& 0 <= i < update.bids.len() && (forall|j: int|
                i < j < update.bids.len() ==> (#[trigger] update.bids[j]).price != bid.price) ==> {
                &&& after.bids.contains_key(bid.price.0) <==> bid.qty.0 > 0
                &&& bid.qty.0 > 0 ==> after.bids[bid.price.0] == bid.qty
            }
            &&& 0 <= i < update.asks.len() && (forall|j: int|
                i < j < update.asks.len() ==> (#[trigger] update.asks[j]).price != ask.price) ==> {
                &&& after.asks.contains_key(ask.price.0) <==> ask.qty.0 > 0
                &&& ask.qty.0 > 0 ==> after.asks[ask.price.0] == ask.qty
            }
        }),
{
    if 0 <= i < update.bids.len() && (forall|j: int|
        i < j < update.bids.len() ==> (#[trigger] update.bids[j]).price != update.bids[i].price) {
        book::last_setting_wins(before.bids, update.bids, i);
    }
    if 0 <= i < update.asks.len() && (forall|j: int|
        i < j < update.asks.len() ==> (#[trigger] update.asks[j]).price != update.asks[i].price) {
        book::last_setting_wins(before.asks, update.asks, i);
    }
}

/// The first update of a pair starts from an empty book for its symbol, and later ones from the
/// book that is kept for the pair.
pub proof fn books_are_kept_by_pair(
    books: Map<Seq<char>, OrderBookView>,
    update: OrderBookUpdateEventView,
    price: i64,
)
    ensures
        ({
            let before = book_before(books, update);
            &&& books.contains_key(update.symbol.pair()) ==> before
                == books[update.symbol.pair()]
            &&& !books.contains_key(update.symbol.pair()) ==> before.symbol == update.symbol
                && !before.bids.contains_key(price) && !before.asks.contains_key(price)
        }),
{
}

/// The symbol that commands are for is that of the market data or of the fill, and the node's own
/// for anything else.
pub proof fn commands_follow_the_event(payload: EventPayloadView, primary: SymbolView)
    ensures
        payload is OrderBookUpdate ==> traded_symbol(payload, primary)
            == payload->OrderBookUpdate_0.symbol,
        payload is Trade ==> traded_symbol(payload, primary) == payload->Trade_0.symbol,
        payload is OrderFill ==> traded_symbol(payload, primary) == payload->OrderFill_0.symbol,
        payload is OrderPartialFill ==> traded_symbol(payload, primary)
            == payload->OrderPartialFill_0.symbol,
        !(payload is OrderBookUpdate || payload is Trade || payload is OrderFill
            || payload is OrderPartialFill) ==> traded_symbol(payload, primary) == primary,
{
}

} // verus!
