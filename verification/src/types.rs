//! Venues, prices, quantities, symbols, orders ids, fills, positions and book levels.
use vstd::prelude::*;
use vstd::string::*;
use vstd::utf8::*;

use crate::num;
use crate::text;

verus! {

/// An exchange.
#[derive(Debug, Clone, Copy, PartialEq, Eq, Hash, Structural)]
pub enum Venue {
    Binance,
    Bybit,
    OKX,
    Deribit,
    Coinbase,
    Kraken,
    DYDX,
    Hyperliquid,
    Simulated,
}

impl Venue {
    /// The lower-case name of the venue.
    pub open spec fn name(self) -> Seq<char> {
        match self {
            Venue::Binance => "binance"@,
            Venue::Bybit => "bybit"@,
            Venue::OKX => "okx"@,
            Venue::Deribit => "deribit"@,
            Venue::Coinbase => "coinbase"@,
            Venue::Kraken => "kraken"@,
            Venue::DYDX => "dydx"@,
            Venue::Hyperliquid => "hyperliquid"@,
            Venue::Simulated => "simulated"@,
        }
    }

    /// The lower-case name of the venue.
    pub fn as_str(&self) -> (r: &'static str)
        ensures
            r@ == self.name(),
    {
        match self {
            Venue::Binance => "binance",
            Venue::Bybit => "bybit",
            Venue::OKX => "okx",
            Venue::Deribit => "deribit",
            Venue::Coinbase => "coinbase",
            Venue::Kraken => "kraken",
            Venue::DYDX => "dydx",
            Venue::Hyperliquid => "hyperliquid",
            Venue::Simulated => "simulated",
        }
    }

    /// The lower-case name of the venue, as an owned text.
    pub fn to_text(&self) -> (r: String)
        ensures
            r@ == self.name(),
    {
        self.as_str().to_owned()
    }
}

/// The direction of an order or a trade.
#[derive(Debug, Clone, Copy, PartialEq, Eq, Hash, Structural)]
pub enum Side {
    Buy,
    Sell,
}

impl Side {
    /// The other direction.
    pub open spec fn flip(self) -> Side {
        match self {
            Side::Buy => Side::Sell,
            Side::Sell => Side::Buy,
        }
    }

    /// The other direction.
    pub fn opposite(self) -> (r: Self)
        ensures
            r == self.flip(),
    {
        match self {
            Side::Buy => Side::Sell,
            Side::Sell => Side::Buy,
        }
    }
}

/// How an order is to be executed.
#[derive(Debug, Clone, Copy, PartialEq, Eq, Hash, Structural)]
pub enum OrderType {
    Market,
    Limit,
    StopMarket,
    StopLimit,
}

/// How long an order stays in force.
#[derive(Debug, Clone, Copy, PartialEq, Eq, Hash, Structural)]
pub enum TimeInForce {
    GoodTilCancel,
    ImmediateOrCancel,
    FillOrKill,
    GoodTilDate(u64),
}

/// Price in pipettes (1 pipette = smallest price increment).
/// For BTC/USDT with 0.01 tick: 60000.00 = 6_000_000 pipettes.
/// All arithmetic is on integers.
#[derive(Debug, Clone, Copy, PartialEq, Eq, PartialOrd, Ord, Hash, Structural)]
pub struct Price(pub i64);

impl Price {
    /// Zero.
    pub fn zero() -> (r: Self)
        ensures
            r.0 == 0,
    {
        Price(0)
    }

    /// The price halfway between two prices, rounded toward zero.
    pub fn midpoint(self, other: Self) -> (r: Self)
        ensures
            r.0 == between(self, other),
    {
        Price(((self.0 as i128 + other.0 as i128) / 2) as i64)
    }

    /// The price in pipettes as decimal text.
    pub fn to_text(&self) -> (r: String)
        ensures
            r@ == text::signed_decimal(self.0 as int),
    {
        let mut out = String::new();
        text::push_i64(&mut out, self.0);
        assert(out@ =~= text::signed_decimal(self.0 as int));
        out
    }
}

/// Quantity in base units (satoshis for BTC, and so on).
#[derive(Debug, Clone, Copy, PartialEq, Eq, PartialOrd, Ord, Hash, Structural)]
pub struct Qty(pub u64);

impl Qty {
    /// Zero.
    pub fn zero() -> (r: Self)
        ensures
            r.0 == 0,
    {
        Qty(0)
    }

    /// The difference, or zero where `other` is larger.
    pub fn saturating_sub(self, other: Self) -> (r: Self)
        ensures
            r.0 == less(self, other),
    {
        if self.0 >= other.0 {
            Qty(self.0 - other.0)
        } else {
            Qty(0)
        }
    }

    /// The quantity as decimal text.
    pub fn to_text(&self) -> (r: String)
        ensures
            r@ == text::decimal(self.0 as nat),
    {
        let mut out = String::new();
        text::push_u64(&mut out, self.0);
        assert(out@ =~= text::decimal(self.0 as nat));
        out
    }
}

/// A text in upper case, by the Unicode rules of `str::to_uppercase`.
pub uninterp spec fn uppercase(s: Seq<char>) -> Seq<char>;

/// An ASCII lower-case letter as its upper-case letter; any other character as it is.
pub open spec fn ascii_upper_char(c: char) -> char {
    if 'a' <= c <= 'z' {
        (c as nat - 32) as char
    } else {
        c
    }
}

/// A text with its ASCII lower-case letters as upper-case letters.
pub open spec fn ascii_upper(s: Seq<char>) -> Seq<char> {
    Seq::new(s.len(), |i: int| ascii_upper_char(s[i]))
}

/// Calls `str::to_uppercase`, whose result depends on the text alone. Of the Unicode mapping
/// only this much is claimed: in a text of ASCII characters each lower-case letter becomes its
/// upper-case letter, and the rest stays as it is.
#[verifier::external_body]
pub(crate) fn to_upper(s: &str) -> (r: String)
    ensures
        r@ == uppercase(s@),
        is_ascii_chars(s@) ==> r@ == ascii_upper(s@),
{
    s.to_uppercase()
}

/// A trading pair at a venue.
#[derive(Debug, Hash, Eq)]
pub struct Symbol {
    pub base: String,
    pub quote: String,
    pub venue: Venue,
}

/// The contents of a [`Symbol`].
#[verifier::ext_equal]
pub struct SymbolView {
    pub base: Seq<char>,
    pub quote: Seq<char>,
    pub venue: Venue,
}

impl View for Symbol {
    type V = SymbolView;

    open spec fn view(&self) -> SymbolView {
        SymbolView { base: self.base@, quote: self.quote@, venue: self.venue }
    }
}

impl Clone for Symbol {
    fn clone(&self) -> (r: Self)
        ensures
            r@ == self@,
    {
        Symbol { base: self.base.clone(), quote: self.quote.clone(), venue: self.venue }
    }
}

impl PartialEq for Symbol {
    fn eq(&self, other: &Self) -> (r: bool) {
        self.base == other.base && self.quote == other.quote && self.venue == other.venue
    }
}

impl vstd::std_specs::cmp::PartialEqSpecImpl for Symbol {
    open spec fn obeys_eq_spec() -> bool {
        true
    }

    open spec fn eq_spec(&self, other: &Self) -> bool {
        self@ == other@
    }
}

impl SymbolView {
    /// The pair as `BASE/QUOTE`.
    pub open spec fn pair(self) -> Seq<char> {
        self.base + "/"@ + self.quote
    }

    /// The symbol as `venue:BASE/QUOTE`.
    pub open spec fn text(self) -> Seq<char> {
        self.venue.name() + ":"@ + self.pair()
    }
}

impl Symbol {
    /// A symbol with its currencies in upper case.
    pub fn new(base: &str, quote: &str, venue: Venue) -> (r: Self)
        ensures
            r@ == (SymbolView { base: uppercase(base@), quote: uppercase(quote@), venue }),
            is_ascii_chars(base@) ==> r@.base == ascii_upper(base@),
            is_ascii_chars(quote@) ==> r@.quote == ascii_upper(quote@),
    {
        Symbol { base: to_upper(base), quote: to_upper(quote), venue }
    }

    /// The pair as `BASE/QUOTE`.
    pub fn pair(&self) -> (r: String)
        ensures
            r@ == self@.pair(),
    {
        let mut out = self.base.clone();
        out.append("/");
        out.append(self.quote.as_str());
        out
    }

    /// The symbol as `venue:BASE/QUOTE`.
    pub fn to_text(&self) -> (r: String)
        ensures
            r@ == self@.text(),
    {
        let mut out = self.venue.to_text();
        out.append(":");
        out.append(self.pair().as_str());
        out
    }
}

/// Identifier of an order, unique within an engine.
#[derive(Debug, Hash, Eq)]
pub struct OrderId(pub String);

impl View for OrderId {
    type V = Seq<char>;

    open spec fn view(&self) -> Seq<char> {
        self.0@
    }
}

impl Clone for OrderId {
    fn clone(&self) -> (r: Self)
        ensures
            r@ == self@,
    {
        OrderId(self.0.clone())
    }
}

impl PartialEq for OrderId {
    fn eq(&self, other: &Self) -> (r: bool) {
        self.0 == other.0
    }
}

impl vstd::std_specs::cmp::PartialEqSpecImpl for OrderId {
    open spec fn obeys_eq_spec() -> bool {
        true
    }

    open spec fn eq_spec(&self, other: &Self) -> bool {
        self@ == other@
    }
}

/// The text of the `local_id`-th order id at a venue: `venue-number`.
pub open spec fn order_id_text(venue: Venue, local_id: nat) -> Seq<char> {
    venue.name() + "-"@ + text::decimal(local_id)
}

impl OrderId {
    /// The id `venue-local_id`.
    pub fn new(venue: Venue, local_id: u64) -> (r: Self)
        ensures
            r@ == order_id_text(venue, local_id as nat),
    {
        let mut out = venue.to_text();
        out.append("-");
        text::push_u64(&mut out, local_id);
        OrderId(out)
    }

    /// The id as text.
    pub fn to_text(&self) -> (r: String)
        ensures
            r@ == self@,
    {
        self.0.clone()
    }
}

/// Order ids are distinct for distinct local ids, at one venue and at two.
pub proof fn order_ids_distinct(venue: Venue, m: nat, other: Venue, n: nat)
    requires
        order_id_text(venue, m) == order_id_text(other, n),
    ensures
        m == n,
{
    reveal_strlit("-");
    let a = venue.name() + "-"@;
    let b = other.name() + "-"@;
    let whole = order_id_text(venue, m);
    assert(whole == a + text::decimal(m) && whole == b + text::decimal(n));
    assert(a.len() <= whole.len() && b.len() <= whole.len());
    assert(whole[a.len() - 1] == '-' && whole[b.len() - 1] == '-');
    text::lemma_decimal_digits(m);
    text::lemma_decimal_digits(n);
    if a.len() < b.len() {
        assert(whole[b.len() - 1] == text::decimal(m)[b.len() - 1 - a.len()]);
    } else if b.len() < a.len() {
        assert(whole[a.len() - 1] == text::decimal(n)[a.len() - 1 - b.len()]);
    }
    assert(text::decimal(m) =~= whole.skip(a.len() as int));
    assert(text::decimal(n) =~= whole.skip(b.len() as int));
    text::lemma_decimal_injective(m, n);
}

/// One execution of an order.
#[derive(Debug)]
pub struct Fill {
    pub order_id: OrderId,
    pub symbol: Symbol,
    pub side: Side,
    pub price: Price,
    pub qty: Qty,
    pub fee: i64,
    pub timestamp: u64,
    pub venue: Venue,
    pub is_maker: bool,
}

/// Net holding of one symbol.
#[derive(Debug)]
pub struct Position {
    pub symbol: Symbol,
    pub side: Side,
    pub qty: Qty,
    pub avg_entry: Price,
    pub unrealized_pnl: i64,
    pub realized_pnl: i64,
}

/// The contents of a [`Position`].
#[verifier::ext_equal]
pub struct PositionView {
    pub symbol: SymbolView,
    pub side: Side,
    pub qty: Qty,
    pub avg_entry: Price,
    pub unrealized_pnl: i64,
    pub realized_pnl: i64,
}

impl View for Position {
    type V = PositionView;

    open spec fn view(&self) -> PositionView {
        PositionView {
            symbol: self.symbol@,
            side: self.side,
            qty: self.qty,
            avg_entry: self.avg_entry,
            unrealized_pnl: self.unrealized_pnl,
            realized_pnl: self.realized_pnl,
        }
    }
}

impl Clone for Position {
    fn clone(&self) -> (r: Self)
        ensures
            r@ == self@,
    {
        Position {
            symbol: self.symbol.clone(),
            side: self.side,
            qty: self.qty,
            avg_entry: self.avg_entry,
            unrealized_pnl: self.unrealized_pnl,
            realized_pnl: self.realized_pnl,
        }
    }
}

impl PositionView {
    /// No holding of a symbol.
    pub open spec fn flat(symbol: SymbolView) -> PositionView {
        PositionView {
            symbol,
            side: Side::Buy,
            qty: Qty(0),
            avg_entry: Price(0),
            unrealized_pnl: 0,
            realized_pnl: 0,
        }
    }
}

impl Position {
    /// No holding of a symbol.
    pub fn flat(symbol: Symbol) -> (r: Self)
        ensures
            r@ == PositionView::flat(symbol@),
    {
        Position {
            symbol,
            side: Side::Buy,
            qty: Qty(0),
            avg_entry: Price(0),
            unrealized_pnl: 0,
            realized_pnl: 0,
        }
    }

    /// Whether nothing is held.
    pub fn is_flat(&self) -> (r: bool)
        ensures
            r == (self.qty.0 == 0),
    {
        self.qty.0 == 0
    }

    /// The quantity, as a signed integer, times the average entry price.
    pub fn notional(&self) -> (r: i64)
        requires
            i64::MIN <= (self.qty.0 as i64) * self.avg_entry.0 <= i64::MAX,
        ensures
            r == (self.qty.0 as i64) * self.avg_entry.0,
    {
        self.qty.0 as i64 * self.avg_entry.0
    }
}

/// One price level of an order book.
#[derive(Debug, Clone, Copy, PartialEq, Eq, Structural)]
pub struct Level {
    pub price: Price,
    pub qty: Qty,
}

/// Copies a list of levels.
pub fn clone_levels(levels: &Vec<Level>) -> (r: Vec<Level>)
    ensures
        r@ == levels@,
{
    let mut out: Vec<Level> = Vec::new();
    let mut i: usize = 0;
    while i < levels.len()
        invariant
            i <= levels@.len(),
            out@ == levels@.take(i as int),
        decreases levels.len() - i,
    {
        out.push(levels[i]);
        assert(levels@.take(i + 1) =~= levels@.take(i as int).push(levels@[i as int]));
        i += 1;
    }
    assert(levels@.take(i as int) =~= levels@);
    out
}

/// A copy of an order book, best levels first.
#[derive(Debug)]
pub struct BookSnapshot {
    pub symbol: Symbol,
    pub bids: Vec<Level>,
    pub asks: Vec<Level>,
    pub timestamp: u64,
    pub seq: u64,
}

/// The first element of a sequence, if any.
pub open spec fn first_level(levels: Seq<Level>) -> Option<Level> {
    if levels.len() > 0 {
        Some(levels[0])
    } else {
        None
    }
}

impl BookSnapshot {
    /// The first bid.
    pub fn best_bid(&self) -> (r: Option<Level>)
        ensures
            r == first_level(self.bids@),
    {
        if self.bids.len() > 0 {
            Some(self.bids[0])
        } else {
            None
        }
    }

    /// The first ask.
    pub fn best_ask(&self) -> (r: Option<Level>)
        ensures
            r == first_level(self.asks@),
    {
        if self.asks.len() > 0 {
            Some(self.asks[0])
        } else {
            None
        }
    }

    /// The midpoint of best bid and best ask, where both exist.
    pub fn mid_price(&self) -> (r: Option<Price>)
        ensures
            r == (if self.bids@.len() > 0 && self.asks@.len() > 0 {
                Some(
                    Price(
                        num::trunc_div(self.bids@[0].price.0 + self.asks@[0].price.0, 2) as i64,
                    ),
                )
            } else {
                None
            }),
    {
        match (self.best_bid(), self.best_ask()) {
            (Some(bid), Some(ask)) => Some(bid.price.midpoint(ask.price)),
            _ => None,
        }
    }

    /// Best ask minus best bid, where both exist.
    pub fn spread(&self) -> (r: Option<i64>)
        requires
            self.bids@.len() > 0 && self.asks@.len() > 0 ==> i64::MIN <= self.asks@[0].price.0
                - self.bids@[0].price.0 <= i64::MAX,
        ensures
            r == (if self.bids@.len() > 0 && self.asks@.len() > 0 {
                Some((self.asks@[0].price.0 - self.bids@[0].price.0) as i64)
            } else {
                None
            }),
    {
        match (self.best_bid(), self.best_ask()) {
            (Some(bid), Some(ask)) => Some(ask.price.0 - bid.price.0),
            _ => None,
        }
    }
}

/// The middle of two prices, rounded toward zero.
pub open spec fn between(a: Price, b: Price) -> int {
    num::trunc_div(a.0 + b.0, 2)
}

/// What is left of a quantity when another is taken from it, at least nothing.
pub open spec fn less(a: Qty, b: Qty) -> int {
    num::max(a.0 - b.0, 0)
}

/// The middle of two prices is as far from the one as from the other, or one unit nearer to the
/// one that is nearer to zero; which comes first does not matter.
pub proof fn midpoints_lie_between(a: Price, b: Price)
    ensures
        between(a, b) == between(b, a),
        -1 <= (a.0 - between(a, b)) - (between(a, b) - b.0) <= 1,
        a.0 + b.0 >= 0 ==> 2 * between(a, b) <= a.0 + b.0,
        a.0 + b.0 <= 0 ==> 2 * between(a, b) >= a.0 + b.0,
        between(a, a) == a.0,
{
}

/// What is left and what was taken make up the whole, unless more was taken than there was: then
/// nothing is left.
pub proof fn rests_make_up_the_whole(a: Qty, b: Qty)
    ensures
        b.0 <= a.0 ==> less(a, b) + b.0 == a.0,
        b.0 >= a.0 ==> less(a, b) == 0,
{
}

/// Buying and selling are each other's opposite.
pub proof fn sides_are_opposite(side: Side)
    ensures
        side.flip() != side,
        side.flip().flip() == side,
{
}

} // verus!
