//! Avellaneda-Stoikov market maker.
use vstd::prelude::*;

use crate::codec;
use crate::codec::Wire;
use crate::event::{Event, EventPayload, EventPayloadView, EventView};
use crate::inventory::{InventoryManager, InventoryView};
use crate::microprice;
use crate::num;
use crate::strategy::{
    Strategy, StrategyCommand, StrategyCommandView, StrategyContext, StrategyContextView,
};
use crate::toxicity::{ToxicityTracker, ToxicityView};
use crate::types::{
    Level, OrderType, Price, Qty, Side, Symbol, SymbolView, TimeInForce, Venue,
};

verus! {

/// What a market maker saves: position, last fair value, ticks and book updates.
type Saved = (i64, (i64, (u64, u64)));

/// The contents of a [`MarketMaker`].
#[verifier::ext_equal]
pub struct MarketMakerView {
    pub id: Seq<char>,
    pub symbol: SymbolView,
    pub venue: Venue,
    pub inventory: InventoryView,
    pub toxicity: ToxicityView,
    /// Half of the spread before it is widened, in pipettes.
    pub base_half_spread: i64,
    pub requote_threshold: i64,
    pub order_qty: u64,
    pub microprice_depth: usize,
    pub last_fair_value: i64,
    pub last_bid_price: i64,
    pub last_ask_price: i64,
    pub has_active_quotes: bool,
    pub tick_count: u64,
    pub last_quote_tick: u64,
    pub min_quote_interval: u64,
    pub book_updates_seen: u64,
    pub warmup_ticks: u64,
}

impl MarketMakerView {
    /// A limit order that stays until cancelled.
    pub open spec fn order(self, side: Side, price: int, qty: int) -> StrategyCommandView {
        StrategyCommandView::PlaceOrder {
            symbol: self.symbol,
            side,
            order_type: OrderType::Limit,
            price: Price(price as i64),
            qty: Qty(qty as u64),
            time_in_force: TimeInForce::GoodTilCancel,
            venue: self.venue,
        }
    }

    /// Cancels the symbol's quotes.
    pub open spec fn cancel(self) -> StrategyCommandView {
        StrategyCommandView::CancelAll { symbol: Some(self.symbol) }
    }

    /// The half-spread before widening, at least one pipette.
    pub open spec fn base(self) -> int {
        num::max(self.base_half_spread as int, 1)
    }

    /// The half-spread, widened for toxicity and volatility.
    pub open spec fn half_spread(self) -> int {
        num::trunc_div(self.base() * self.toxicity.multiplier(), 10000)
    }

    /// The shift of both quotes for inventory.
    pub open spec fn skew(self) -> int {
        self.inventory.skew(self.half_spread() as i64)
    }

    /// The bid around a fair value.
    pub open spec fn bid(self, fair_value: i64) -> int {
        fair_value - self.half_spread() - self.skew()
    }

    /// The ask around a fair value.
    pub open spec fn ask(self, fair_value: i64) -> int {
        fair_value + self.half_spread() - self.skew()
    }

    /// How much can be sold at once.
    pub open spec fn sell_qty(self) -> int {
        num::min(self.order_qty as int, num::max(self.inventory.position as int, 0))
    }

    /// Whether the amounts of new quotes stay within 64 bits.
    pub open spec fn quotes_fit(self, fair_value: i64) -> bool {
        &&& self.toxicity.multiplier_fits()
        &&& num::fits_i64(self.base() * self.toxicity.multiplier())
        &&& self.inventory.skew_fits(self.half_spread() as i64)
        &&& num::fits_i64(fair_value - self.half_spread())
        &&& num::fits_i64(self.bid(fair_value))
        &&& num::fits_i64(fair_value + self.half_spread())
        &&& num::fits_i64(self.ask(fair_value))
    }

    /// The commands that replace the quotes: cancel the old ones, bid unless the inventory is at
    /// its maximum, and ask for what can be sold.
    pub open spec fn quotes(self, fair_value: i64) -> Seq<StrategyCommandView> {
        let cancel = if self.has_active_quotes {
            seq![self.cancel()]
        } else {
            Seq::empty()
        };
        let bid = if self.inventory.position >= self.inventory.max_inventory {
            Seq::empty()
        } else {
            seq![self.order(Side::Buy, self.bid(fair_value), self.order_qty as int)]
        };
        let ask = if self.inventory.position > 0 && self.sell_qty() > 0 {
            seq![self.order(Side::Sell, self.ask(fair_value), self.sell_qty())]
        } else {
            Seq::empty()
        };
        cancel + bid + ask
    }

    /// The state after quoting around a fair value.
    pub open spec fn quoted(self, fair_value: i64) -> MarketMakerView {
        MarketMakerView {
            last_fair_value: fair_value,
            last_bid_price: self.bid(fair_value) as i64,
            last_ask_price: self.ask(fair_value) as i64,
            has_active_quotes: true,
            last_quote_tick: self.tick_count,
            ..self
        }
    }

    /// Whether the fair value has moved enough, and long enough ago, to quote again. The first
    /// quote comes at once.
    pub open spec fn requotes(self, fair_value: i64) -> bool {
        self.last_fair_value == 0 || (self.tick_count - self.last_quote_tick
            >= self.min_quote_interval && num::abs(fair_value - self.last_fair_value)
            >= self.requote_threshold)
    }

    /// Whether the amounts of that decision stay within 64 bits, as far as it gets.
    pub open spec fn requote_fits(self, fair_value: i64) -> bool {
        self.last_fair_value != 0 ==> {
            &&& self.tick_count >= self.last_quote_tick
            &&& self.tick_count - self.last_quote_tick >= self.min_quote_interval ==> i64::MIN
                < fair_value - self.last_fair_value <= i64::MAX
        }
    }

    /// The state after counting a book update.
    pub open spec fn ticked(self) -> MarketMakerView {
        MarketMakerView {
            book_updates_seen: (self.book_updates_seen + 1) as u64,
            tick_count: (self.tick_count + 1) as u64,
            ..self
        }
    }

    /// The fair value of a book, where quoting is due: the warmup is over, both sides have
    /// levels, and the value is positive.
    pub open spec fn fair_value(self, bids: Seq<Level>, asks: Seq<Level>) -> Option<i64> {
        let value = microprice::weighted(bids, asks, self.microprice_depth as int);
        if self.book_updates_seen < self.warmup_ticks || bids.len() == 0 || asks.len() == 0
            || value <= 0 {
            None
        } else {
            Some(value as i64)
        }
    }

    /// Whether the amounts of a book update stay within their types, as far as it gets.
    pub open spec fn book_fits(self, bids: Seq<Level>, asks: Seq<Level>) -> bool {
        &&& self.book_updates_seen < u64::MAX
        &&& self.tick_count < u64::MAX
        &&& {
            let next = self.ticked();
            next.book_updates_seen >= next.warmup_ticks && bids.len() > 0 && asks.len() > 0 ==> {
                &&& microprice::weighted_fits(bids, asks, next.microprice_depth as int)
                &&& match next.fair_value(bids, asks) {
                    Some(fv) => next.requote_fits(fv) && (next.requotes(fv) ==> next.quotes_fit(
                        fv,
                    )),
                    None => true,
                }
            }
        }
    }

    /// The reaction to a book update.
    pub open spec fn on_book(self, bids: Seq<Level>, asks: Seq<Level>) -> (
        MarketMakerView,
        Seq<StrategyCommandView>,
    ) {
        let next = self.ticked();
        match next.fair_value(bids, asks) {
            Some(fv) => if next.requotes(fv) {
                (next.quoted(fv), next.quotes(fv))
            } else {
                (next, Seq::empty())
            },
            None => (next, Seq::empty()),
        }
    }

    /// The reaction to a trade: toxic flow pulls the quotes.
    pub open spec fn on_trade(self, side: Side, qty: u64, price: i64) -> (
        MarketMakerView,
        Seq<StrategyCommandView>,
    ) {
        let next = MarketMakerView { toxicity: self.toxicity.traded(side, qty, price), ..self };
        if next.toxicity.toxic() && next.has_active_quotes {
            (MarketMakerView { has_active_quotes: false, ..next }, seq![next.cancel()])
        } else {
            (next, Seq::empty())
        }
    }

    /// The state after a fill: the next book update may quote again at once.
    pub open spec fn on_fill(self, side: Side, qty: u64) -> MarketMakerView {
        MarketMakerView {
            inventory: self.inventory.filled(side, qty),
            last_quote_tick: num::max(self.tick_count - self.min_quote_interval, 0) as u64,
            ..self
        }
    }

    /// What is saved of the state.
    pub open spec fn essence(self) -> (i64, (i64, (u64, u64))) {
        (
            self.inventory.position,
            (self.last_fair_value, (self.tick_count, self.book_updates_seen)),
        )
    }

    /// The state with saved values put back.
    pub open spec fn with_essence(self, saved: (i64, (i64, (u64, u64)))) -> MarketMakerView {
        MarketMakerView {
            inventory: InventoryView {
                position: num::max(saved.0 as int, 0) as i64,
                ..self.inventory
            },
            last_fair_value: saved.1.0,
            tick_count: (saved.1.1).0,
            book_updates_seen: (saved.1.1).1,
            ..self
        }
    }
}

/// Quotes around a volume-weighted microprice.
///
/// The spread widens with volatility and toxic flow, and both quotes shift to shed inventory.
/// On spot it never asks for more than it holds.
pub struct MarketMaker {
    id: String,
    symbol: Symbol,
    venue: Venue,
    inventory: InventoryManager,
    toxicity: ToxicityTracker,
    /// Half of the spread before it is widened, in pipettes.
    base_half_spread: i64,
    requote_threshold: i64,
    order_qty: u64,
    microprice_depth: usize,
    last_fair_value: i64,
    last_bid_price: i64,
    last_ask_price: i64,
    has_active_quotes: bool,
    tick_count: u64,
    last_quote_tick: u64,
    min_quote_interval: u64,
    book_updates_seen: u64,
    warmup_ticks: u64,
}

impl View for MarketMaker {
    type V = MarketMakerView;

    closed spec fn view(&self) -> MarketMakerView {
        MarketMakerView {
            id: self.id@,
            symbol: self.symbol@,
            venue: self.venue,
            inventory: self.inventory@,
            toxicity: self.toxicity@,
            base_half_spread: self.base_half_spread,
            requote_threshold: self.requote_threshold,
            order_qty: self.order_qty,
            microprice_depth: self.microprice_depth,
            last_fair_value: self.last_fair_value,
            last_bid_price: self.last_bid_price,
            last_ask_price: self.last_ask_price,
            has_active_quotes: self.has_active_quotes,
            tick_count: self.tick_count,
            last_quote_tick: self.last_quote_tick,
            min_quote_interval: self.min_quote_interval,
            book_updates_seen: self.book_updates_seen,
            warmup_ticks: self.warmup_ticks,
        }
    }
}

impl MarketMaker {
    /// A market maker that has seen nothing yet. The half-spread is in pipettes.
    pub fn new(
        id: &str,
        symbol: Symbol,
        venue: Venue,
        order_qty: u64,
        max_inventory: i64,
        base_half_spread: i64,
        gamma: i64,
    ) -> (r: Self)
        ensures
            r@ == (MarketMakerView {
                id: id@,
                symbol: symbol@,
                venue,
                inventory: InventoryView { position: 0, max_inventory, gamma },
                toxicity: ToxicityView {
                    window: Seq::empty(),
                    max_window: 200,
                    buy_volume: 0,
                    sell_volume: 0,
                    volatility: 0,
                    last_price: 0,
                    vol_alpha: 500,
                    threshold: 6000,
                },
                base_half_spread,
                requote_threshold: 10,
                order_qty,
                microprice_depth: 5,
                last_fair_value: 0,
                last_bid_price: 0,
                last_ask_price: 0,
                has_active_quotes: false,
                tick_count: 0,
                last_quote_tick: 0,
                min_quote_interval: 5,
                book_updates_seen: 0,
                warmup_ticks: 3,
            }),
    {
        MarketMaker {
            id: id.to_owned(),
            symbol,
            venue,
            inventory: InventoryManager::new(max_inventory, gamma),
            toxicity: ToxicityTracker::new(200, 500, 6000),
            base_half_spread,
            requote_threshold: 10,
            order_qty,
            microprice_depth: 5,
            last_fair_value: 0,
            last_bid_price: 0,
            last_ask_price: 0,
            has_active_quotes: false,
            tick_count: 0,
            last_quote_tick: 0,
            min_quote_interval: 5,
            book_updates_seen: 0,
            warmup_ticks: 3,
        }
    }

    /// The inventory.
    pub fn inventory(&self) -> (r: &InventoryManager)
        ensures
            r@ == self@.inventory,
    {
        &self.inventory
    }

    /// The half-spread, widened for toxicity and volatility.
    fn current_half_spread(&self) -> (r: i64)
        requires
            self@.toxicity.multiplier_fits(),
            num::fits_i64(self@.base() * self@.toxicity.multiplier()),
        ensures
            r == self@.half_spread(),
    {
        let base_hs: i64 = if self.base_half_spread > 1 {
            self.base_half_spread
        } else {
            1
        };
        let multiplier: i64 = self.toxicity.spread_multiplier();
        num::div_trunc(base_hs * multiplier, 10000)
    }

    /// Replaces the quotes by new ones around a fair value.
    fn generate_quotes(&mut self, fair_value: i64) -> (r: Vec<StrategyCommand>)
        requires
            old(self)@.quotes_fit(fair_value),
        ensures
            final(self)@ == old(self)@.quoted(fair_value),
            r.deep_view() == old(self)@.quotes(fair_value),
    {
        let ghost s = self@;
        let mut cmds: Vec<StrategyCommand> = Vec::new();
        if self.has_active_quotes {
            cmds.push(StrategyCommand::CancelAll { symbol: Some(self.symbol.clone()) });
        }
        let half_spread: i64 = self.current_half_spread();
        let skew: i64 = self.inventory.compute_skew(half_spread);
        let bid_price: i64 = fair_value - half_spread - skew;
        let ask_price: i64 = fair_value + half_spread - skew;
        if !self.inventory.at_max() {
            cmds.push(
                StrategyCommand::PlaceOrder {
                    symbol: self.symbol.clone(),
                    side: Side::Buy,
                    order_type: OrderType::Limit,
                    price: Price(bid_price),
                    qty: Qty(self.order_qty),
                    time_in_force: TimeInForce::GoodTilCancel,
                    venue: self.venue,
                },
            );
        }
        if self.inventory.can_sell() {
            let sell_qty: u64 = self.inventory.sellable_qty(self.order_qty);
            if sell_qty > 0 {
                cmds.push(
                    StrategyCommand::PlaceOrder {
                        symbol: self.symbol.clone(),
                        side: Side::Sell,
                        order_type: OrderType::Limit,
                        price: Price(ask_price),
                        qty: Qty(sell_qty),
                        time_in_force: TimeInForce::GoodTilCancel,
                        venue: self.venue,
                    },
                );
            }
        }
        assert(cmds.deep_view() =~= s.quotes(fair_value));
        self.last_fair_value = fair_value;
        self.last_bid_price = bid_price;
        self.last_ask_price = ask_price;
        self.has_active_quotes = true;
        self.last_quote_tick = self.tick_count;
        cmds
    }

    /// Whether it is time to quote again at a tick.
    fn should_requote(&self, fv: i64, ticks: u64) -> (r: bool)
        requires
            (MarketMakerView { tick_count: ticks, ..self@ }).requote_fits(fv),
        ensures
            r == (MarketMakerView { tick_count: ticks, ..self@ }).requotes(fv),
    {
        if self.last_fair_value == 0 {
            return true;
        }
        if ticks - self.last_quote_tick < self.min_quote_interval {
            return false;
        }
        let change: i64 = fv - self.last_fair_value;
        let size: i64 = if change < 0 {
            -change
        } else {
            change
        };
        size >= self.requote_threshold
    }

    /// Whether the amounts of new quotes stay within 64 bits.
    fn are_quotes_in_range(&self, fv: i64) -> (r: bool)
        ensures
            r == self@.quotes_fit(fv),
    {
        if !self.toxicity.is_multiplier_in_range() {
            return false;
        }
        let base_hs: i64 = if self.base_half_spread > 1 {
            self.base_half_spread
        } else {
            1
        };
        let multiplier: i64 = self.toxicity.spread_multiplier();
        proof {
            num::lemma_product_fits(base_hs as int, multiplier as int);
        }
        if !num::in_i64(base_hs as i128 * multiplier as i128) {
            return false;
        }
        let half_spread: i64 = self.current_half_spread();
        if !self.inventory.is_skew_in_range(half_spread) {
            return false;
        }
        let skew: i64 = self.inventory.compute_skew(half_spread);
        let low: i128 = fv as i128 - half_spread as i128;
        let high: i128 = fv as i128 + half_spread as i128;
        num::in_i64(low) && num::in_i64(low - skew as i128) && num::in_i64(high) && num::in_i64(
            high - skew as i128,
        )
    }

    /// Whether the amounts of the decision to quote again at a tick stay within 64 bits.
    fn is_requote_in_range(&self, fv: i64, ticks: u64) -> (r: bool)
        ensures
            r == (MarketMakerView { tick_count: ticks, ..self@ }).requote_fits(fv),
    {
        if self.last_fair_value == 0 {
            return true;
        }
        if ticks < self.last_quote_tick {
            return false;
        }
        if ticks - self.last_quote_tick < self.min_quote_interval {
            return true;
        }
        let change: i128 = fv as i128 - self.last_fair_value as i128;
        i64::MIN as i128 + 1 <= change && change <= i64::MAX as i128
    }

    /// Counts a book update.
    fn tick(&mut self)
        requires
            old(self)@.book_updates_seen < u64::MAX,
            old(self)@.tick_count < u64::MAX,
        ensures
            final(self)@ == old(self)@.ticked(),
    {
        self.book_updates_seen = self.book_updates_seen + 1;
        self.tick_count = self.tick_count + 1;
    }

    /// The fair value of a book, where quoting is due after a number of book updates.
    fn fair_value(&self, bids: &Vec<Level>, asks: &Vec<Level>, seen: u64) -> (r: Option<i64>)
        requires
            seen >= self@.warmup_ticks && bids@.len() > 0 && asks@.len() > 0
                ==> microprice::weighted_fits(bids@, asks@, self@.microprice_depth as int),
        ensures
            r == (MarketMakerView { book_updates_seen: seen, ..self@ }).fair_value(bids@, asks@),
    {
        if seen < self.warmup_ticks {
            return None;
        }
        if bids.len() == 0 || asks.len() == 0 {
            return None;
        }
        let fv: i64 = microprice::compute_weighted(
            bids.as_slice(),
            asks.as_slice(),
            self.microprice_depth,
        ).0;
        if fv <= 0 {
            return None;
        }
        Some(fv)
    }

    /// Whether the amounts of a book update stay within their types.
    fn is_book_in_range(&self, bids: &Vec<Level>, asks: &Vec<Level>) -> (r: bool)
        ensures
            r == self@.book_fits(bids@, asks@),
    {
        if self.book_updates_seen == u64::MAX || self.tick_count == u64::MAX {
            return false;
        }
        if self.book_updates_seen + 1 < self.warmup_ticks || bids.len() == 0 || asks.len() == 0 {
            return true;
        }
        if !microprice::is_weighted_in_range(
            bids.as_slice(),
            asks.as_slice(),
            self.microprice_depth,
        ) {
            return false;
        }
        let ticks: u64 = self.tick_count + 1;
        let ghost next = self@.ticked();
        match self.fair_value(bids, asks, self.book_updates_seen + 1) {
            Some(fv) => {
                assert(next.fair_value(bids@, asks@) == Some(fv));
                assert(next.quotes_fit(fv) == self@.quotes_fit(fv));
                if !self.is_requote_in_range(fv, ticks) {
                    false
                } else if self.should_requote(fv, ticks) {
                    self.are_quotes_in_range(fv)
                } else {
                    true
                }
            },
            None => true,
        }
    }

    /// Reacts to a book update.
    fn react_to_book(&mut self, bids: &Vec<Level>, asks: &Vec<Level>) -> (r: Vec<StrategyCommand>)
        requires
            old(self)@.book_fits(bids@, asks@),
        ensures
            (final(self)@, r.deep_view()) == old(self)@.on_book(bids@, asks@),
    {
        self.tick();
        let ghost next = self@;
        if let Some(fv) = self.fair_value(bids, asks, self.book_updates_seen) {
            if self.should_requote(fv, self.tick_count) {
                return self.generate_quotes(fv);
            }
        }
        let none: Vec<StrategyCommand> = Vec::new();
        assert(none.deep_view() =~= Seq::empty());
        none
    }

    /// Reacts to a trade.
    fn react_to_trade(&mut self, side: Side, qty: u64, price: i64) -> (r: Vec<StrategyCommand>)
        requires
            old(self)@.toxicity.trade_fits(side, qty, price),
            old(self)@.toxicity.traded(side, qty, price).vpin_fits(),
        ensures
            (final(self)@, r.deep_view()) == old(self)@.on_trade(side, qty, price),
    {
        self.toxicity.on_trade(side, qty, price);
        let mut cmds: Vec<StrategyCommand> = Vec::new();
        assert(cmds.deep_view() =~= Seq::empty());
        if self.toxicity.is_toxic() && self.has_active_quotes {
            let ghost next = self@;
            self.has_active_quotes = false;
            cmds.push(StrategyCommand::CancelAll { symbol: Some(self.symbol.clone()) });
            assert(cmds.deep_view() =~= seq![next.cancel()]);
        }
        cmds
    }

    /// Reacts to a fill.
    fn react_to_fill(&mut self, side: Side, qty: u64)
        requires
            num::fits_i64(old(self)@.inventory.raw(side, qty)),
        ensures
            final(self)@ == old(self)@.on_fill(side, qty),
    {
        self.inventory.on_fill(side, qty);
        self.last_quote_tick = if self.tick_count > self.min_quote_interval {
            self.tick_count - self.min_quote_interval
        } else {
            0
        };
    }
}

impl Strategy for MarketMaker {
    open spec fn admits(state: MarketMakerView, event: EventView) -> bool {
        match event.payload {
            EventPayloadView::OrderBookUpdate(book) => book.symbol == state.symbol
                ==> state.book_fits(book.bids, book.asks),
            EventPayloadView::Trade(trade) => trade.symbol == state.symbol ==> {
                &&& state.toxicity.trade_fits(trade.side, trade.qty.0, trade.price.0)
                &&& state.toxicity.traded(trade.side, trade.qty.0, trade.price.0).vpin_fits()
            },
            EventPayloadView::OrderFill(fill) | EventPayloadView::OrderPartialFill(fill) => {
                fill.symbol == state.symbol ==> num::fits_i64(
                    state.inventory.raw(fill.side, fill.qty.0),
                )
            },
            _ => true,
        }
    }

    open spec fn reaction(state: MarketMakerView, event: EventView, ctx: StrategyContextView) -> (
        MarketMakerView,
        Seq<StrategyCommandView>,
    ) {
        match event.payload {
            EventPayloadView::OrderBookUpdate(book) => if book.symbol == state.symbol {
                state.on_book(book.bids, book.asks)
            } else {
                (state, Seq::empty())
            },
            EventPayloadView::Trade(trade) => if trade.symbol == state.symbol {
                state.on_trade(trade.side, trade.qty.0, trade.price.0)
            } else {
                (state, Seq::empty())
            },
            EventPayloadView::OrderFill(fill) | EventPayloadView::OrderPartialFill(fill) => {
                if fill.symbol == state.symbol {
                    (state.on_fill(fill.side, fill.qty.0), Seq::empty())
                } else {
                    (state, Seq::empty())
                }
            },
            _ => (state, Seq::empty()),
        }
    }

    open spec fn started(state: MarketMakerView) -> MarketMakerView {
        state
    }

    open spec fn stopped(state: MarketMakerView) -> MarketMakerView {
        state
    }

    open spec fn saved(state: MarketMakerView) -> Seq<u8> {
        <(i64, (i64, (u64, u64)))>::enc(state.essence())
    }

    open spec fn loaded(state: MarketMakerView, data: Seq<u8>) -> MarketMakerView {
        match <(i64, (i64, (u64, u64)))>::dec(data) {
            None => state,
            Some((saved, _)) => state.with_essence(saved),
        }
    }

    fn id(&self) -> (r: &str)
        ensures
            r@ == self@.id,
    {
        self.id.as_str()
    }

    fn can_process(&self, event: &Event) -> (r: bool) {
        match &event.payload {
            EventPayload::OrderBookUpdate(book) => !(book.symbol == self.symbol)
                || self.is_book_in_range(&book.bids, &book.asks),
            EventPayload::Trade(trade) => !(trade.symbol == self.symbol)
                || self.toxicity.is_trade_safe(trade.side, trade.qty.0, trade.price.0),
            EventPayload::OrderFill(fill) | EventPayload::OrderPartialFill(fill) => !(fill.symbol
                == self.symbol) || self.inventory.is_fill_in_range(fill.side, fill.qty.0),
            _ => true,
        }
    }

    fn on_event(&mut self, event: &Event, _ctx: &StrategyContext) -> (r: Vec<StrategyCommand>) {
        match &event.payload {
            EventPayload::OrderBookUpdate(book) => {
                if book.symbol == self.symbol {
                    return self.react_to_book(&book.bids, &book.asks);
                }
            },
            EventPayload::Trade(trade) => {
                if trade.symbol == self.symbol {
                    return self.react_to_trade(trade.side, trade.qty.0, trade.price.0);
                }
            },
            EventPayload::OrderFill(fill) | EventPayload::OrderPartialFill(fill) => {
                if fill.symbol == self.symbol {
                    self.react_to_fill(fill.side, fill.qty.0);
                }
            },
            _ => {},
        }
        let none: Vec<StrategyCommand> = Vec::new();
        assert(none.deep_view() =~= Seq::empty());
        none
    }

    fn on_start(&mut self) {
    }

    fn on_stop(&mut self) {
    }

    fn snapshot(&self) -> (r: Vec<u8>) {
        let state: Saved = (
            self.inventory.position(),
            (self.last_fair_value, (self.tick_count, self.book_updates_seen)),
        );
        codec::encode(&state)
    }

    fn restore(&mut self, data: &[u8]) {
        let decoded: Result<Saved, String> = codec::decode(data);
        if let Ok(state) = decoded {
            self.inventory.set_position(state.0);
            self.last_fair_value = state.1.0;
            self.tick_count = (state.1.1).0;
            self.book_updates_seen = (state.1.1).1;
        }
    }
}

/// A saved state is read back: position, fair value, ticks and book updates return to what they
/// were.
pub proof fn saved_state_returns(state: MarketMakerView, other: MarketMakerView)
    requires
        state.inventory.position >= 0,
    ensures
        MarketMaker::loaded(other, MarketMaker::saved(state)).essence() == state.essence(),
        MarketMaker::loaded(state, MarketMaker::saved(state)) == state,
{
    codec::decode_encode::<(i64, (i64, (u64, u64)))>(state.essence(), Seq::empty());
}

/// No ask is for more than is held, and there is no bid once the inventory is at its maximum.
pub proof fn quotes_are_covered(state: MarketMakerView, fair_value: i64, i: int)
    requires
        0 <= i < state.quotes(fair_value).len(),
    ensures
        match state.quotes(fair_value)[i] {
            StrategyCommandView::PlaceOrder { side, qty, .. } => {
                &&& side == Side::Sell ==> 0 < qty.0 <= state.inventory.position
                &&& side == Side::Buy ==> state.inventory.position < state.inventory.max_inventory
            },
            _ => true,
        },
{
}

/// New quotes never cross: the bid is at most the ask, and below it where the spread is at least
/// one pipette wide.
pub proof fn quotes_do_not_cross(state: MarketMakerView, fair_value: i64)
    requires
        state.quotes_fit(fair_value),
        state.toxicity.volatility >= 0,
    ensures
        state.bid(fair_value) < state.ask(fair_value),
{
    crate::toxicity::multiplier_range(state.toxicity);
    let b = state.base();
    let m = state.toxicity.multiplier();
    assert(b * m >= 10000) by (nonlinear_arith)
        requires
            b >= 1,
            m >= 10000,
    ;
}

/// Before the warmup is over a book update gives no command.
pub proof fn warmup_is_silent(state: MarketMakerView, bids: Seq<Level>, asks: Seq<Level>)
    requires
        state.book_updates_seen + 1 < state.warmup_ticks,
    ensures
        state.on_book(bids, asks).1.len() == 0,
{
}

/// New quotes lie around the fair value: half a spread apart from their midpoint on either side,
/// and the midpoint is below the fair value by exactly the skew, so a long position never has it
/// above.
pub proof fn quotes_lean_against_inventory(state: MarketMakerView, fair_value: i64)
    requires
        state.quotes_fit(fair_value),
        state.toxicity.volatility >= 0,
        state.inventory.position >= 0,
        state.inventory.max_inventory > 0,
        state.inventory.gamma >= 0,
    ensures
        ({
            let after = state.quoted(fair_value);
            let bid = after.last_bid_price as int;
            let ask = after.last_ask_price as int;
            let half = (ask - bid) / 2;
            let shift = state.inventory.skew(half as i64);
            &&& bid < ask && (ask - bid) % 2 == 0
            &&& shift >= 0
            &&& bid + ask == 2 * (fair_value - shift)
            &&& bid + ask <= 2 * fair_value
            &&& state.inventory.position == 0 ==> fair_value - bid == ask - fair_value
        }),
{
    quotes_do_not_cross(state, fair_value);
    let h = state.half_spread();
    crate::toxicity::multiplier_range(state.toxicity);
    assert(h >= 1) by {
        let b = state.base();
        let m = state.toxicity.multiplier();
        assert(b * m >= 10000) by (nonlinear_arith)
            requires
                b >= 1,
                m >= 10000,
        ;
    }
    assert(state.ask(fair_value) - state.bid(fair_value) == 2 * h);
    num::lemma_div_fits(state.base() * state.toxicity.multiplier(), 10000);
    crate::inventory::skew_grows_with_position(
        state.inventory,
        state.inventory,
        h as i64,
        h as i64,
    );
    if state.inventory.position == 0 {
        crate::inventory::skew_is_in_proportion(state.inventory, h as i64);
        let s = state.inventory.skew(h as i64);
        let top = state.inventory.max_inventory as int;
        let g = state.inventory.gamma as int;
        assert(g * 0 * h == 0) by (nonlinear_arith);
        assert(s <= 0) by (nonlinear_arith)
            requires
                s * top * 10000 <= 0,
                top > 0,
        ;
    }
}

/// With the fair value and the spread the same, a larger position gives neither a higher bid nor a
/// higher ask, and both quotes are as far apart.
pub proof fn longer_positions_quote_lower(
    less: MarketMakerView,
    more: MarketMakerView,
    fair_value: i64,
)
    requires
        less.quotes_fit(fair_value),
        more.quotes_fit(fair_value),
        less.toxicity == more.toxicity,
        less.base_half_spread == more.base_half_spread,
        less.toxicity.volatility >= 0,
        0 <= less.inventory.position <= more.inventory.position,
        less.inventory.max_inventory == more.inventory.max_inventory,
        less.inventory.max_inventory > 0,
        less.inventory.gamma == more.inventory.gamma,
        less.inventory.gamma >= 0,
    ensures
        ({
            let a = less.quoted(fair_value);
            let b = more.quoted(fair_value);
            &&& b.last_bid_price <= a.last_bid_price
            &&& b.last_ask_price <= a.last_ask_price
            &&& b.last_ask_price - b.last_bid_price == a.last_ask_price - a.last_bid_price
        }),
{
    quotes_lean_against_inventory(less, fair_value);
    let h = less.half_spread();
    num::lemma_div_fits(less.base() * less.toxicity.multiplier(), 10000);
    assert(less.ask(fair_value) - less.bid(fair_value) == 2 * h);
    crate::inventory::skew_grows_with_position(less.inventory, more.inventory, h as i64, h as i64);
}

/// A quote moves with the fair value, pipette for pipette.
pub proof fn quotes_follow_fair_value(state: MarketMakerView, one: i64, other: i64)
    requires
        state.quotes_fit(one),
        state.quotes_fit(other),
    ensures
        state.quoted(other).last_bid_price - state.quoted(one).last_bid_price == other - one,
        state.quoted(other).last_ask_price - state.quoted(one).last_ask_price == other - one,
        state.quoted(other).last_fair_value == other,
{
}

/// The spread is the base spread, of one pipette on each side at least, widened by as many
/// ten-thousandths as the flow is toxic plus fifty for each pipette of volatility, the latter up
/// to twice the base.
pub proof fn spread_is_widened_for_risk(state: MarketMakerView, fair_value: i64)
    requires
        state.quotes_fit(fair_value),
        state.toxicity.volatility >= 0,
    ensures
        ({
            let after = state.quoted(fair_value);
            let half = (after.last_ask_price - after.last_bid_price) / 2;
            let base = if state.base_half_spread >= 1 {
                state.base_half_spread as int
            } else {
                1
            };
            let extra = state.toxicity.vpin() + if state.toxicity.volatility >= 200 {
                10000
            } else {
                50 * state.toxicity.volatility
            };
            &&& half * 10000 <= base * (10000 + extra) < (half + 1) * 10000
            &&& base <= half <= 3 * base
            &&& state.toxicity.volatility == 0 && state.toxicity.vpin() == 0 ==> half == base
        }),
{
    let h = state.half_spread();
    let b = state.base();
    let m = state.toxicity.multiplier();
    crate::toxicity::multiplier_range(state.toxicity);
    crate::toxicity::spread_widens_with_risk(state.toxicity, state.toxicity);
    assert(b * 10000 <= b * m <= b * 30000) by (nonlinear_arith)
        requires
            b >= 1,
            10000 <= m <= 30000,
    ;
    assert(state.ask(fair_value) - state.bid(fair_value) == 2 * h);
}

/// The commands of new quotes: old ones are cancelled first, where there are any. A bid for the
/// order quantity follows unless the inventory is at its maximum, and an ask for the order
/// quantity, or what is held where that is less, where something is held. Both are limit orders
/// for the own symbol and venue that stay until cancelled, at the prices that are remembered.
pub proof fn quotes_are_placed(state: MarketMakerView, fair_value: i64, i: int)
    requires
        state.quotes_fit(fair_value),
        state.inventory.position >= 0,
        0 <= i < state.quotes(fair_value).len(),
    ensures
        ({
            let after = state.quoted(fair_value);
            let commands = state.quotes(fair_value);
            let bids = state.inventory.position < state.inventory.max_inventory;
            let asks = state.inventory.position > 0 && state.order_qty > 0;
            &&& commands.len() == (if state.has_active_quotes { 1int } else { 0 }) + (if bids {
                1int
            } else {
                0
            }) + (if asks { 1int } else { 0 })
            &&& after.has_active_quotes && after.last_fair_value == fair_value
            &&& after.last_quote_tick == state.tick_count
            &&& match commands[i] {
                StrategyCommandView::CancelAll { symbol } => {
                    i == 0 && state.has_active_quotes && symbol == Some(state.symbol)
                },
                StrategyCommandView::PlaceOrder {
                    symbol,
                    side,
                    order_type,
                    price,
                    qty,
                    time_in_force,
                    venue,
                } => {
                    &&& i > 0 || !state.has_active_quotes
                    &&& symbol == state.symbol && venue == state.venue
                    &&& order_type == OrderType::Limit
                    &&& time_in_force == TimeInForce::GoodTilCancel
                    &&& side == Side::Buy ==> bids && price.0 == after.last_bid_price && qty.0
                        == state.order_qty
                    &&& side == Side::Sell ==> asks && price.0 == after.last_ask_price && qty.0
                        <= state.order_qty && qty.0 <= state.inventory.position && (qty.0
                        == state.order_qty || qty.0 == state.inventory.position)
                    &&& side == Side::Sell ==> i == commands.len() - 1
                    &&& bids && asks && i == commands.len() - 2 ==> side == Side::Buy
                },
                _ => false,
            }
        }),
{
}

/// When a book update for the symbol makes new quotes: once as many updates were seen as the
/// warmup takes, both sides have levels and the fair value is positive, and the first time at
/// once, else as soon as enough updates came and the fair value moved enough since the last
/// quotes. Every update for the symbol is counted; one for another symbol changes nothing.
pub proof fn quotes_come_when_due(
    state: MarketMakerView,
    event: EventView,
    ctx: StrategyContextView,
)
    requires
        event.payload is OrderBookUpdate,
        state.book_updates_seen < u64::MAX,
        state.tick_count < u64::MAX,
        state.tick_count >= state.last_quote_tick,
    ensures
        ({
            let book = event.payload->OrderBookUpdate_0;
            let (after, commands) = MarketMaker::reaction(state, event, ctx);
            let value = microprice::weighted(
                book.bids,
                book.asks,
                state.microprice_depth as int,
            );
            let ready = state.book_updates_seen + 1 >= state.warmup_ticks && book.bids.len() > 0
                && book.asks.len() > 0 && value > 0;
            let first = state.last_fair_value == 0;
            let fair = value as i64;
            let moved = fair - state.last_fair_value >= state.requote_threshold
                || state.last_fair_value - fair >= state.requote_threshold;
            let waited = state.tick_count + 1 >= state.last_quote_tick + state.min_quote_interval;
            if book.symbol != state.symbol {
                after == state && commands.len() == 0
            } else {
                &&& after.book_updates_seen == state.book_updates_seen + 1
                &&& after.tick_count == state.tick_count + 1
                &&& after.inventory == state.inventory && after.toxicity == state.toxicity
                &&& if ready && (first || (waited && moved)) {
                    &&& after.last_fair_value == fair && after.has_active_quotes
                    &&& after.last_quote_tick == after.tick_count
                    &&& state.has_active_quotes ==> commands.len() > 0
                } else {
                    &&& commands.len() == 0
                    &&& after.last_fair_value == state.last_fair_value
                    &&& after.last_bid_price == state.last_bid_price
                    &&& after.last_ask_price == state.last_ask_price
                    &&& after.has_active_quotes == state.has_active_quotes
                    &&& after.last_quote_tick == state.last_quote_tick
                }
            }
        }),
{
}

/// A trade in the symbol enters the flow. Where that makes the flow toxic, active quotes are
/// pulled, and nothing else is ordered. A trade in another symbol changes nothing.
pub proof fn toxic_flow_pulls_quotes(
    state: MarketMakerView,
    event: EventView,
    ctx: StrategyContextView,
)
    requires
        event.payload is Trade,
    ensures
        ({
            let trade = event.payload->Trade_0;
            let (after, commands) = MarketMaker::reaction(state, event, ctx);
            if trade.symbol != state.symbol {
                after == state && commands.len() == 0
            } else {
                let pulled = state.has_active_quotes && after.toxicity.vpin()
                    > state.toxicity.threshold;
                &&& after.toxicity == state.toxicity.traded(
                    trade.side,
                    trade.qty.0,
                    trade.price.0,
                )
                &&& after.has_active_quotes <==> state.has_active_quotes && !pulled
                &&& pulled ==> commands == seq![
                    StrategyCommandView::CancelAll { symbol: Some(state.symbol) },
                ]
                &&& !pulled ==> commands.len() == 0
                &&& after.inventory == state.inventory && after.tick_count == state.tick_count
                &&& after.last_fair_value == state.last_fair_value
                &&& after.last_quote_tick == state.last_quote_tick
                &&& after.book_updates_seen == state.book_updates_seen
            }
        }),
{
    let trade = event.payload->Trade_0;
    crate::toxicity::trades_keep_limits(
        state.toxicity,
        trade.side,
        trade.qty.0,
        trade.price.0,
    );
}

/// A fill in the symbol, in part or in full, moves the position by its quantity, and the next book
/// update need not wait to quote again. It orders nothing; one in another symbol changes nothing.
pub proof fn fills_move_the_inventory(
    state: MarketMakerView,
    event: EventView,
    ctx: StrategyContextView,
)
    requires
        event.payload is OrderFill || event.payload is OrderPartialFill,
        state.inventory.position >= 0,
        MarketMaker::admits(state, event),
        ({
            let fill = if event.payload is OrderFill {
                event.payload->OrderFill_0
            } else {
                event.payload->OrderPartialFill_0
            };
            fill.qty.0 <= i64::MAX
        }),
    ensures
        ({
            let fill = if event.payload is OrderFill {
                event.payload->OrderFill_0
            } else {
                event.payload->OrderPartialFill_0
            };
            let (after, commands) = MarketMaker::reaction(state, event, ctx);
            let held = state.inventory.position as int;
            if fill.symbol != state.symbol {
                after == state && commands.len() == 0
            } else {
                &&& commands.len() == 0
                &&& fill.side == Side::Buy ==> after.inventory.position == held + fill.qty.0
                &&& fill.side == Side::Sell && fill.qty.0 <= held ==> after.inventory.position
                    == held - fill.qty.0
                &&& fill.side == Side::Sell && fill.qty.0 > held ==> after.inventory.position == 0
                &&& after.tick_count + 1 >= after.last_quote_tick + after.min_quote_interval
                    || after.last_quote_tick == 0
                &&& after.last_quote_tick <= after.tick_count
                &&& after.toxicity == state.toxicity && after.tick_count == state.tick_count
                &&& after.last_fair_value == state.last_fair_value
                &&& after.has_active_quotes == state.has_active_quotes
            }
        }),
{
}

/// Reading back what was saved gives the position, the last fair value, and the numbers of ticks
/// and book updates; everything else stays as it is where it is read.
pub proof fn saved_fields_return(state: MarketMakerView, other: MarketMakerView)
    requires
        state.inventory.position >= 0,
    ensures
        ({
            let back = MarketMaker::loaded(other, MarketMaker::saved(state));
            &&& back.inventory.position == state.inventory.position
            &&& back.last_fair_value == state.last_fair_value
            &&& back.tick_count == state.tick_count
            &&& back.book_updates_seen == state.book_updates_seen
            &&& back.inventory.max_inventory == other.inventory.max_inventory
            &&& back.inventory.gamma == other.inventory.gamma
            &&& back.toxicity == other.toxicity && back.order_qty == other.order_qty
            &&& back.has_active_quotes == other.has_active_quotes
            &&& back.last_quote_tick == other.last_quote_tick
            &&& back.symbol == other.symbol && back.venue == other.venue && back.id == other.id
        }),
{
    codec::decode_encode::<(i64, (i64, (u64, u64)))>(state.essence(), Seq::empty());
}

} // verus!
