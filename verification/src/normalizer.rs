//! Turns exchange messages into event payloads, so that what follows need not know the exchange.
use vstd::prelude::*;
use vstd::string::*;
use vstd::utf8::*;

use crate::connector::RawFeedMessage;
use crate::event::{
    EventPayload, EventPayloadView, OrderBookUpdateEvent, OrderBookUpdateEventView, TradeEvent,
    TradeEventView,
};
use crate::text;
use crate::types;
use crate::types::{Side, Symbol, SymbolView, Venue};

verus! {

/// A symbol without its separators.
pub open spec fn cleaned(raw: Seq<char>) -> Seq<char> {
    text::without(raw, '-', '/')
}

/// The quote currency at the end of a symbol without separators.
pub open spec fn quote_of(clean: Seq<char>) -> Seq<char> {
    if text::has_suffix(clean, "USDT"@) {
        "USDT"@
    } else if text::has_suffix(clean, "USD"@) {
        "USD"@
    } else if text::has_suffix(clean, "BTC"@) {
        "BTC"@
    } else {
        "UNKNOWN"@
    }
}

/// What stands before the quote currency; everything where that is not known.
pub open spec fn base_of(clean: Seq<char>) -> Seq<char> {
    if quote_of(clean) == "UNKNOWN"@ {
        clean
    } else {
        clean.take(clean.len() - quote_of(clean).len())
    }
}

/// The symbol that an exchange's text stands for.
pub open spec fn symbol_of(raw: Seq<char>, venue: Venue) -> SymbolView {
    SymbolView {
        base: types::uppercase(base_of(cleaned(raw))),
        quote: quote_of(cleaned(raw)),
        venue,
    }
}

/// The payload of a message.
pub open spec fn payload_of(msg: RawFeedMessage, venue: Venue) -> EventPayloadView {
    match msg {
        RawFeedMessage::OrderBookSnapshot {
            symbol,
            bids,
            asks,
            timestamp,
        } => EventPayloadView::OrderBookUpdate(
            OrderBookUpdateEventView {
                symbol: symbol_of(symbol@, venue),
                bids: bids@,
                asks: asks@,
                is_snapshot: true,
                exchange_ts: timestamp,
            },
        ),
        RawFeedMessage::OrderBookDelta {
            symbol,
            bids,
            asks,
            timestamp,
        } => EventPayloadView::OrderBookUpdate(
            OrderBookUpdateEventView {
                symbol: symbol_of(symbol@, venue),
                bids: bids@,
                asks: asks@,
                is_snapshot: false,
                exchange_ts: timestamp,
            },
        ),
        RawFeedMessage::Trade {
            symbol,
            price,
            qty,
            is_buy,
            timestamp,
        } => EventPayloadView::Trade(
            TradeEventView {
                symbol: symbol_of(symbol@, venue),
                price,
                qty,
                side: if is_buy {
                    Side::Buy
                } else {
                    Side::Sell
                },
                exchange_ts: timestamp,
            },
        ),
    }
}

/// Normalizes the messages of a venue, whose prices and quantities have a number of decimals.
pub struct FeedNormalizer {
    venue: Venue,
    price_decimals: u8,
    qty_decimals: u8,
}

impl FeedNormalizer {
    /// The venue.
    pub closed spec fn at(&self) -> Venue {
        self.venue
    }

    /// The decimals of prices and of quantities.
    pub closed spec fn decimals(&self) -> (u8, u8) {
        (self.price_decimals, self.qty_decimals)
    }

    /// A normalizer for a venue.
    pub fn new(venue: Venue, price_decimals: u8, qty_decimals: u8) -> (r: Self)
        ensures
            r.at() == venue,
            r.decimals() == (price_decimals, qty_decimals),
    {
        FeedNormalizer { venue, price_decimals, qty_decimals }
    }

    /// The decimals of prices.
    pub fn price_decimals(&self) -> (r: u8)
        ensures
            r == self.decimals().0,
    {
        self.price_decimals
    }

    /// The decimals of quantities.
    pub fn qty_decimals(&self) -> (r: u8)
        ensures
            r == self.decimals().1,
    {
        self.qty_decimals
    }

    /// The payload of a message; every message has one.
    pub fn normalize(&self, msg: RawFeedMessage) -> (r: Option<EventPayload>)
        ensures
            r is Some,
            r->Some_0@ == payload_of(msg, self.at()),
    {
        match msg {
            RawFeedMessage::OrderBookSnapshot { symbol, bids, asks, timestamp } => {
                let sym = self.parse_symbol(symbol.as_str());
                Some(
                    EventPayload::OrderBookUpdate(
                        OrderBookUpdateEvent {
                            symbol: sym,
                            bids,
                            asks,
                            is_snapshot: true,
                            exchange_ts: timestamp,
                        },
                    ),
                )
            },
            RawFeedMessage::OrderBookDelta { symbol, bids, asks, timestamp } => {
                let sym = self.parse_symbol(symbol.as_str());
                Some(
                    EventPayload::OrderBookUpdate(
                        OrderBookUpdateEvent {
                            symbol: sym,
                            bids,
                            asks,
                            is_snapshot: false,
                            exchange_ts: timestamp,
                        },
                    ),
                )
            },
            RawFeedMessage::Trade { symbol, price, qty, is_buy, timestamp } => {
                let sym = self.parse_symbol(symbol.as_str());
                let side = if is_buy {
                    Side::Buy
                } else {
                    Side::Sell
                };
                Some(
                    EventPayload::Trade(
                        TradeEvent { symbol: sym, price, qty, side, exchange_ts: timestamp },
                    ),
                )
            },
        }
    }

    /// The symbol that an exchange's text stands for: `BTCUSDT`, `BTC/USDT` and `BTC-USDT` are
    /// the same.
    pub fn parse_symbol(&self, raw: &str) -> (r: Symbol)
        ensures
            r@ == symbol_of(raw@, self.at()),
            is_ascii_chars(base_of(cleaned(raw@))) ==> r@.base == types::ascii_upper(
                base_of(cleaned(raw@)),
            ),
    {
        let clean = text::remove_chars(raw, '-', '/');
        proof {
            lemma_quotes();
        }
        if let Some(base) = text::strip_suffix(clean.as_str(), "USDT") {
            Symbol::new(base.as_str(), "USDT", self.venue)
        } else if let Some(base) = text::strip_suffix(clean.as_str(), "USD") {
            Symbol::new(base.as_str(), "USD", self.venue)
        } else if let Some(base) = text::strip_suffix(clean.as_str(), "BTC") {
            Symbol::new(base.as_str(), "BTC", self.venue)
        } else {
            Symbol::new(clean.as_str(), "UNKNOWN", self.venue)
        }
    }
}

/// The quote currencies are in upper case, and known ones are not the unknown one.
proof fn lemma_quotes()
    ensures
        is_ascii_chars("USDT"@),
        types::ascii_upper("USDT"@) == "USDT"@,
        is_ascii_chars("USD"@),
        types::ascii_upper("USD"@) == "USD"@,
        is_ascii_chars("BTC"@),
        types::ascii_upper("BTC"@) == "BTC"@,
        is_ascii_chars("UNKNOWN"@),
        types::ascii_upper("UNKNOWN"@) == "UNKNOWN"@,
        "USDT"@ != "UNKNOWN"@,
        "USD"@ != "UNKNOWN"@,
        "BTC"@ != "UNKNOWN"@,
{
    reveal_strlit("USDT");
    reveal_strlit("USD");
    reveal_strlit("BTC");
    reveal_strlit("UNKNOWN");
    assert(types::ascii_upper("USDT"@) =~= "USDT"@);
    assert(types::ascii_upper("USD"@) =~= "USD"@);
    assert(types::ascii_upper("BTC"@) =~= "BTC"@);
    assert(types::ascii_upper("UNKNOWN"@) =~= "UNKNOWN"@);
    assert("USDT"@.len() == 4);
    assert("USD"@.len() == 3);
    assert("BTC"@.len() == 3);
    assert("UNKNOWN"@.len() == 7);
}

/// Separators make no difference to a symbol.
pub proof fn separators_do_not_matter(base: Seq<char>, quote: Seq<char>, venue: Venue)
    ensures
        symbol_of(base + seq!['/'] + quote, venue) == symbol_of(base + quote, venue),
        symbol_of(base + seq!['-'] + quote, venue) == symbol_of(base + quote, venue),
{
    let p = text::other_than('-', '/');
    lemma_filter_add(base, quote, p);
    lemma_filter_add(base + seq!['/'], quote, p);
    lemma_filter_add(base, seq!['/'], p);
    lemma_filter_add(base + seq!['-'], quote, p);
    lemma_filter_add(base, seq!['-'], p);
    reveal(Seq::filter);
    assert(seq!['/'].drop_last() =~= Seq::empty());
    assert(seq!['-'].drop_last() =~= Seq::empty());
    assert(!p('/') && !p('-'));
    assert(seq!['/'].last() == '/');
    assert(seq!['-'].last() == '-');
    assert(Seq::<char>::empty().filter(p) =~= Seq::empty());
    assert(seq!['/'].filter(p) =~= Seq::empty());
    assert(seq!['-'].filter(p) =~= Seq::empty());
    assert(base.filter(p) + Seq::<char>::empty() =~= base.filter(p));
}

/// Filtering two texts one after the other filters each.
proof fn lemma_filter_add(a: Seq<char>, b: Seq<char>, p: spec_fn(char) -> bool)
    ensures
        (a + b).filter(p) == a.filter(p) + b.filter(p),
    decreases b.len(),
{
    reveal(Seq::filter);
    if b.len() == 0 {
        assert(a + b =~= a);
        assert(a.filter(p) + b.filter(p) =~= a.filter(p));
    } else {
        assert((a + b).drop_last() =~= a + b.drop_last());
        assert((a + b).last() == b.last());
        lemma_filter_add(a, b.drop_last(), p);
        if p(b.last()) {
            assert((a.filter(p) + b.drop_last().filter(p)).push(b.last()) =~= a.filter(p)
                + b.drop_last().filter(p).push(b.last()));
        }
    }
}

/// A name without separators that ends in `USDT`, `USD` or `BTC` is quoted in that, and what
/// precedes it is the base; any other is all base, with its quote unknown.
pub proof fn names_are_split_at_the_quote(base: Seq<char>, venue: Venue)
    requires
        forall|i: int| 0 <= i < base.len() ==> (#[trigger] base[i]) != '-' && base[i] != '/',
    ensures
        symbol_of(base + "USDT"@, venue) == (SymbolView {
            base: types::uppercase(base),
            quote: "USDT"@,
            venue,
        }),
        symbol_of(base + "USD"@, venue) == (SymbolView {
            base: types::uppercase(base),
            quote: "USD"@,
            venue,
        }),
        symbol_of(base + "BTC"@, venue) == (SymbolView {
            base: types::uppercase(base),
            quote: "BTC"@,
            venue,
        }),
        !text::has_suffix(base, "USDT"@) && !text::has_suffix(base, "USD"@) && !text::has_suffix(
            base,
            "BTC"@,
        ) ==> symbol_of(base, venue) == (SymbolView {
            base: types::uppercase(base),
            quote: "UNKNOWN"@,
            venue,
        }),
{
    lemma_quotes();
    reveal_strlit("USDT");
    reveal_strlit("USD");
    reveal_strlit("BTC");
    assert("USDT"@.len() == 4 && "USDT"@[3] == 'T');
    assert("USD"@.len() == 3 && "USD"@[2] == 'D');
    assert("BTC"@.len() == 3 && "BTC"@[2] == 'C');
    lemma_clean(base);
    lemma_suffix(base, "USDT"@);
    lemma_suffix(base, "USD"@);
    lemma_suffix(base, "BTC"@);
    let a = base + "USDT"@;
    let b = base + "USD"@;
    let c = base + "BTC"@;
    lemma_clean(a);
    lemma_clean(b);
    lemma_clean(c);
    assert(!text::has_suffix(b, "USDT"@)) by {
        if text::has_suffix(b, "USDT"@) {
            assert(b.skip(b.len() - 4)[3] == 'T');
        }
    }
    assert(!text::has_suffix(c, "USDT"@)) by {
        if text::has_suffix(c, "USDT"@) {
            assert(c.skip(c.len() - 4)[3] == 'T');
        }
    }
    assert(!text::has_suffix(c, "USD"@)) by {
        if text::has_suffix(c, "USD"@) {
            assert(c.skip(c.len() - 3)[2] == 'D');
        }
    }
}

/// A text ends in what was put behind it.
proof fn lemma_suffix(front: Seq<char>, back: Seq<char>)
    ensures
        text::has_suffix(front + back, back),
        (front + back).take((front + back).len() - back.len()) == front,
{
    let s = front + back;
    assert(s.skip(s.len() - back.len()) =~= back);
    assert(s.take(s.len() - back.len()) =~= front);
}

/// A text without separators is not changed by taking them out.
proof fn lemma_clean(s: Seq<char>)
    requires
        forall|i: int| 0 <= i < s.len() ==> (#[trigger] s[i]) != '-' && s[i] != '/',
    ensures
        cleaned(s) == s,
    decreases s.len(),
{
    reveal(Seq::filter);
    if s.len() > 0 {
        lemma_clean(s.drop_last());
        assert(s.last() == s[s.len() - 1]);
        assert(s =~= s.drop_last().push(s.last()));
    } else {
        assert(cleaned(s) =~= s);
    }
}

/// A message of a feed keeps its prices, quantities and time. Bids stay bids and asks stay asks, a
/// snapshot is marked as one and a change is not, and a trade buys where the buyer took the offer.
pub proof fn feed_messages_keep_their_contents(msg: RawFeedMessage, venue: Venue)
    ensures
        match (msg, payload_of(msg, venue)) {
            (
                RawFeedMessage::OrderBookSnapshot { symbol, bids, asks, timestamp },
                EventPayloadView::OrderBookUpdate(update),
            ) => {
                &&& update.is_snapshot && update.bids == bids@ && update.asks == asks@
                &&& update.exchange_ts == timestamp && update.symbol.venue == venue
            },
            (
                RawFeedMessage::OrderBookDelta { symbol, bids, asks, timestamp },
                EventPayloadView::OrderBookUpdate(update),
            ) => {
                &&& !update.is_snapshot && update.bids == bids@ && update.asks == asks@
                &&& update.exchange_ts == timestamp && update.symbol.venue == venue
            },
            (
                RawFeedMessage::Trade { symbol, price, qty, is_buy, timestamp },
                EventPayloadView::Trade(trade),
            ) => {
                &&& trade.price == price && trade.qty == qty
                &&& trade.side == Side::Buy <==> is_buy
                &&& trade.exchange_ts == timestamp && trade.symbol.venue == venue
            },
            _ => false,
        },
{
}

} // verus!
