//! Smart order router: splits orders across venues.
use vstd::prelude::*;

use crate::book;
use crate::book::{OrderBook, OrderBookView};
use crate::num;
use crate::text;
use crate::types::{
    Level, OrderType, Price, Qty, Side, Symbol, SymbolView, TimeInForce, Venue,
};

verus! {

/// How an order is split across venues.
#[derive(Debug, Clone, Copy, PartialEq, Eq, Structural)]
pub enum RoutingAlgo {
    /// Sends the entire order to the best venue.
    BestVenue,
    /// Splits across venues in proportion to their depth.
    VWAP,
    /// Splits into equal slices over time.
    TWAP { slices: u32, interval_ms: u64 },
    /// Sweeps the levels of all venues, best price first.
    LiquiditySweep,
}

/// A part of an order, sent to one venue.
#[derive(Debug)]
pub struct OrderSlice {
    pub venue: Venue,
    pub symbol: Symbol,
    pub side: Side,
    pub order_type: OrderType,
    pub price: Price,
    pub qty: Qty,
    pub time_in_force: TimeInForce,
}

/// The contents of an [`OrderSlice`].
#[verifier::ext_equal]
pub struct OrderSliceView {
    pub venue: Venue,
    pub symbol: SymbolView,
    pub side: Side,
    pub order_type: OrderType,
    pub price: Price,
    pub qty: Qty,
    pub time_in_force: TimeInForce,
}

impl View for OrderSlice {
    type V = OrderSliceView;

    open spec fn view(&self) -> OrderSliceView {
        OrderSliceView {
            venue: self.venue,
            symbol: self.symbol@,
            side: self.side,
            order_type: self.order_type,
            price: self.price,
            qty: self.qty,
            time_in_force: self.time_in_force,
        }
    }
}

impl DeepView for OrderSlice {
    type V = OrderSliceView;

    open spec fn deep_view(&self) -> OrderSliceView {
        self@
    }
}

impl Clone for OrderSlice {
    fn clone(&self) -> (r: Self)
        ensures
            r@ == self@,
    {
        OrderSlice {
            venue: self.venue,
            symbol: self.symbol.clone(),
            side: self.side,
            order_type: self.order_type,
            price: self.price,
            qty: self.qty,
            time_in_force: self.time_in_force,
        }
    }
}

/// The book of a pair at a venue.
struct VenueBook {
    pair: String,
    venue: Venue,
    book: OrderBook,
}

/// The contents of a router's entry for a pair at a venue.
#[verifier::ext_equal]
pub struct VenueBookView {
    pub pair: Seq<char>,
    pub venue: Venue,
    pub book: OrderBookView,
}

impl VenueBook {
    spec fn v(&self) -> VenueBookView {
        VenueBookView { pair: self.pair@, venue: self.venue, book: self.book@ }
    }
}

impl VenueBookView {
    /// The best level that an order on a side trades against.
    pub open spec fn quote(self, side: Side) -> Option<Level> {
        match side {
            Side::Buy => self.book.best_ask(),
            Side::Sell => self.book.best_bid(),
        }
    }

    /// Whether an order for a pair can trade here at all.
    pub open spec fn quotes(self, pair: Seq<char>, side: Side) -> bool {
        self.pair == pair && self.quote(side) is Some
    }

    /// The total quantity that an order on a side trades against.
    pub open spec fn depth(self, side: Side) -> nat {
        match side {
            Side::Buy => book::depth(self.book.asks),
            Side::Sell => book::depth(self.book.bids),
        }
    }
}

/// Whether a price is better than another for an order on a side.
pub open spec fn better(side: Side, a: Price, b: Price) -> bool {
    match side {
        Side::Buy => a.0 < b.0,
        Side::Sell => a.0 > b.0,
    }
}

/// An immediate-or-cancel limit order for part of a parent order.
pub open spec fn slice_of(
    symbol: SymbolView,
    side: Side,
    venue: Venue,
    price: Price,
    qty: Qty,
) -> OrderSliceView {
    OrderSliceView {
        venue,
        symbol,
        side,
        order_type: OrderType::Limit,
        price,
        qty,
        time_in_force: TimeInForce::ImmediateOrCancel,
    }
}

/// Whether the `i`-th entry has the best price for an order, and none before it has that price.
pub open spec fn is_best(
    entries: Seq<VenueBookView>,
    pair: Seq<char>,
    side: Side,
    i: int,
) -> bool {
    &&& 0 <= i < entries.len()
    &&& entries[i].quotes(pair, side)
    &&& forall|j: int|
        0 <= j < entries.len() && (#[trigger] entries[j]).quotes(pair, side) ==> !better(
            side,
            entries[j].quote(side)->Some_0.price,
            entries[i].quote(side)->Some_0.price,
        ) && (j < i ==> better(
            side,
            entries[i].quote(side)->Some_0.price,
            entries[j].quote(side)->Some_0.price,
        ))
}

/// The whole order at the venue with the best price, where a venue has one.
pub open spec fn best_venue(
    entries: Seq<VenueBookView>,
    symbol: SymbolView,
    side: Side,
    qty: Qty,
) -> Seq<OrderSliceView> {
    if exists|i: int| is_best(entries, symbol.pair(), side, i) {
        let i = choose|i: int| is_best(entries, symbol.pair(), side, i);
        seq![slice_of(symbol, side, entries[i].venue, entries[i].quote(side)->Some_0.price, qty)]
    } else {
        Seq::empty()
    }
}

/// At most one entry is the best.
proof fn lemma_best_unique(
    entries: Seq<VenueBookView>,
    pair: Seq<char>,
    side: Side,
    i: int,
    j: int,
)
    requires
        is_best(entries, pair, side, i),
        is_best(entries, pair, side, j),
    ensures
        i == j,
{
    assert(entries[i].quotes(pair, side));
    assert(entries[j].quotes(pair, side));
}

/// The total depth of the entries that an order can trade against.
pub open spec fn total_depth(entries: Seq<VenueBookView>, pair: Seq<char>, side: Side) -> nat
    decreases entries.len(),
{
    if entries.len() == 0 {
        0
    } else {
        total_depth(entries.drop_last(), pair, side) + if entries.last().quotes(pair, side) {
            entries.last().depth(side)
        } else {
            0
        }
    }
}

/// `qty * part / whole` rounded to the nearest integer, halves up.
pub open spec fn share(qty: nat, part: nat, whole: nat) -> nat {
    qty * part / whole + if 2 * (qty * part % whole) >= whole {
        1nat
    } else {
        0nat
    }
}

/// The order split over the entries in proportion to their depth, parts of zero left out.
pub open spec fn proportional(
    entries: Seq<VenueBookView>,
    symbol: SymbolView,
    side: Side,
    qty: Qty,
    whole: nat,
) -> Seq<OrderSliceView>
    decreases entries.len(),
{
    if entries.len() == 0 {
        Seq::empty()
    } else {
        let before = proportional(entries.drop_last(), symbol, side, qty, whole);
        let entry = entries.last();
        let part = share(qty.0 as nat, entry.depth(side), whole);
        if entry.quotes(symbol.pair(), side) && part > 0 {
            before.push(
                slice_of(
                    symbol,
                    side,
                    entry.venue,
                    entry.quote(side)->Some_0.price,
                    Qty(part as u64),
                ),
            )
        } else {
            before
        }
    }
}

/// A price level at a venue.
#[verifier::ext_equal]
pub struct VenueLevel {
    pub venue: Venue,
    pub level: Level,
}

/// The first levels that an order trades against at one entry, at most twenty.
pub open spec fn near_levels(entry: VenueBookView, side: Side) -> Seq<VenueLevel> {
    let levels = entry.book.opposite(side);
    Seq::new(
        num::min(20, levels.len() as int) as nat,
        |i: int| VenueLevel { venue: entry.venue, level: levels[i] },
    )
}

/// The first levels of all entries for a pair, entry after entry.
pub open spec fn gathered(entries: Seq<VenueBookView>, pair: Seq<char>, side: Side) -> Seq<
    VenueLevel,
>
    decreases entries.len(),
{
    if entries.len() == 0 {
        Seq::empty()
    } else if entries.last().pair == pair {
        gathered(entries.drop_last(), pair, side) + near_levels(entries.last(), side)
    } else {
        gathered(entries.drop_last(), pair, side)
    }
}

/// A list sorted by price, with one more level put in behind those that are as good.
pub open spec fn placed(sorted: Seq<VenueLevel>, x: VenueLevel, side: Side) -> Seq<VenueLevel>
    decreases sorted.len(),
{
    if sorted.len() == 0 || !better(side, x.level.price, sorted.last().level.price) {
        sorted.push(x)
    } else {
        placed(sorted.drop_last(), x, side).push(sorted.last())
    }
}

/// A list of levels with the best price first; levels of one price keep their order.
pub open spec fn best_first(levels: Seq<VenueLevel>, side: Side) -> Seq<VenueLevel>
    decreases levels.len(),
{
    if levels.len() == 0 {
        Seq::empty()
    } else {
        placed(best_first(levels.drop_last(), side), levels.last(), side)
    }
}

/// Slices that take a quantity from the front of a list of levels, as far as they reach.
pub open spec fn swept(
    levels: Seq<VenueLevel>,
    symbol: SymbolView,
    side: Side,
    wanted: int,
) -> Seq<OrderSliceView>
    decreases levels.len(),
{
    if levels.len() == 0 || wanted <= 0 {
        Seq::empty()
    } else {
        let x = levels[0];
        let fill = book::taken(wanted, x.level);
        seq![slice_of(symbol, side, x.venue, x.level.price, Qty(fill as u64))] + swept(
            levels.skip(1),
            symbol,
            side,
            wanted - fill,
        )
    }
}

/// The slices of an order.
pub open spec fn routed(
    entries: Seq<VenueBookView>,
    symbol: SymbolView,
    side: Side,
    qty: Qty,
    algo: RoutingAlgo,
) -> Seq<OrderSliceView> {
    match algo {
        RoutingAlgo::BestVenue => best_venue(entries, symbol, side, qty),
        RoutingAlgo::VWAP => {
            let whole = total_depth(entries, symbol.pair(), side);
            if whole == 0 {
                Seq::empty()
            } else {
                proportional(entries, symbol, side, qty, whole)
            }
        },
        RoutingAlgo::TWAP { slices, .. } => {
            let part = qty.0 / slices as u64;
            let one = best_venue(entries, symbol, side, Qty(part));
            if part == 0 || one.len() == 0 {
                Seq::empty()
            } else {
                Seq::new(slices as nat, |i: int| one[0])
            }
        },
        RoutingAlgo::LiquiditySweep => swept(
            best_first(gathered(entries, symbol.pair(), side), side),
            symbol,
            side,
            qty.0 as int,
        ),
    }
}

/// Whether an order can be routed without a depth that is too large to add up or a division
/// by zero slices.
pub open spec fn routable(
    entries: Seq<VenueBookView>,
    pair: Seq<char>,
    side: Side,
    algo: RoutingAlgo,
) -> bool {
    match algo {
        RoutingAlgo::VWAP => total_depth(entries, pair, side) <= u64::MAX,
        RoutingAlgo::TWAP { slices, .. } => slices > 0,
        _ => true,
    }
}

/// The router's entries after a book was put in: in place of the one it replaces, or last.
pub open spec fn with_book(
    entries: Seq<VenueBookView>,
    entry: VenueBookView,
) -> Seq<VenueBookView>
    decreases entries.len(),
{
    if entries.len() == 0 {
        seq![entry]
    } else if entries[0].pair == entry.pair && entries[0].venue == entry.venue {
        seq![entry] + entries.skip(1)
    } else {
        seq![entries[0]] + with_book(entries.skip(1), entry)
    }
}

/// Whether no pair has two books at one venue.
pub open spec fn distinct_books(entries: Seq<VenueBookView>) -> bool {
    forall|i: int, j: int|
        0 <= i < j < entries.len() ==> (#[trigger] entries[i]).pair != (#[trigger] entries[j]).pair
            || entries[i].venue != entries[j].venue
}

/// Splits orders across venues by their liquidity.
pub struct SmartOrderRouter {
    books: Vec<VenueBook>,
}

impl SmartOrderRouter {
    /// The books, in the order in which their venues came.
    pub closed spec fn entries(&self) -> Seq<VenueBookView> {
        self.books@.map_values(|b: VenueBook| b.v())
    }

    /// No pair has two books at one venue.
    pub open spec fn wf(&self) -> bool {
        distinct_books(self.entries())
    }

    /// A router without books.
    pub fn new() -> (r: Self)
        ensures
            r.wf(),
            r.entries() == Seq::<VenueBookView>::empty(),
    {
        let r = SmartOrderRouter { books: Vec::new() };
        assert(r.entries() =~= Seq::empty());
        r
    }

    /// Puts in the book of a pair at a venue, replacing an earlier one.
    pub fn update_book(&mut self, symbol: &str, venue: Venue, book: OrderBook)
        requires
            old(self).wf(),
        ensures
            final(self).wf(),
            final(self).entries() == with_book(
                old(self).entries(),
                VenueBookView { pair: symbol@, venue, book: book@ },
            ),
    {
        let ghost s = self.entries();
        let ghost entry = VenueBookView { pair: symbol@, venue, book: book@ };
        let mut i: usize = 0;
        while i < self.books.len() && !(self.books[i].venue == venue && text::is_same(
            self.books[i].pair.as_str(),
            symbol,
        ))
            invariant
                s == self.entries(),
                i <= self.books@.len(),
                entry.pair == symbol@,
                entry.venue == venue,
                forall|k: int|
                    0 <= k < i ==> !((#[trigger] s[k]).pair == entry.pair && s[k].venue
                        == entry.venue),
            decreases self.books.len() - i,
        {
            assert(s[i as int] == self.books@[i as int].v());
            i += 1;
        }
        let new_entry = VenueBook { pair: symbol.to_owned(), venue, book };
        assert(new_entry.v() == entry);
        proof {
            if i < s.len() {
                assert(s[i as int] == self.books@[i as int].v());
            }
            lemma_with_book(s, entry, i as int);
        }
        if i < self.books.len() {
            self.books.set(i, new_entry);
            assert(self.entries() =~= s.update(i as int, entry));
        } else {
            self.books.push(new_entry);
            assert(self.entries() =~= s.push(entry));
        }
    }

    /// Splits an order by an algorithm.
    pub fn route(&self, symbol: &Symbol, side: Side, qty: Qty, algo: RoutingAlgo) -> (r: Vec<
        OrderSlice,
    >)
        requires
            self.wf(),
            routable(self.entries(), symbol@.pair(), side, algo),
        ensures
            r.deep_view() == routed(self.entries(), symbol@, side, qty, algo),
    {
        match algo {
            RoutingAlgo::BestVenue => self.route_best_venue(symbol, side, qty),
            RoutingAlgo::VWAP => self.route_vwap(symbol, side, qty),
            RoutingAlgo::TWAP { slices, .. } => self.route_twap(symbol, side, qty, slices),
            RoutingAlgo::LiquiditySweep => self.route_sweep(symbol, side, qty),
        }
    }

    /// The best level that an order on a side trades against in a book.
    fn quote_of(book: &OrderBook, side: Side) -> (r: Option<Level>)
        ensures
            r == (match side {
                Side::Buy => book@.best_ask(),
                Side::Sell => book@.best_bid(),
            }),
    {
        match side {
            Side::Buy => book.best_ask(),
            Side::Sell => book.best_bid(),
        }
    }

    /// Whether a price is better than another for an order on a side.
    fn is_better(side: Side, a: Price, b: Price) -> (r: bool)
        ensures
            r == better(side, a, b),
    {
        match side {
            Side::Buy => a.0 < b.0,
            Side::Sell => a.0 > b.0,
        }
    }

    /// An immediate-or-cancel limit order for part of a parent order.
    fn slice(symbol: &Symbol, side: Side, venue: Venue, price: Price, qty: Qty) -> (r: OrderSlice)
        ensures
            r@ == slice_of(symbol@, side, venue, price, qty),
    {
        OrderSlice {
            venue,
            symbol: symbol.clone(),
            side,
            order_type: OrderType::Limit,
            price,
            qty,
            time_in_force: TimeInForce::ImmediateOrCancel,
        }
    }

    /// The whole order at the venue with the best price.
    fn route_best_venue(&self, symbol: &Symbol, side: Side, qty: Qty) -> (r: Vec<OrderSlice>)
        ensures
            r.deep_view() == best_venue(self.entries(), symbol@, side, qty),
            r@.len() <= 1,
    {
        let pair = symbol.pair();
        let ghost s = self.entries();
        let mut best: Option<(usize, Price)> = None;
        let mut i: usize = 0;
        while i < self.books.len()
            invariant
                s == self.entries(),
                pair@ == symbol@.pair(),
                i <= self.books@.len(),
                match best {
                    None => forall|j: int|
                        0 <= j < i ==> !(#[trigger] s[j]).quotes(pair@, side),
                    Some((b, price)) => b < i && price == s[b as int].quote(side)->Some_0.price
                        && is_best(s.take(i as int), pair@, side, b as int),
                },
            decreases self.books.len() - i,
        {
            let entry = &self.books[i];
            assert(s[i as int] == entry.v());
            let ghost t = s.take(i + 1);
            assert(forall|j: int| 0 <= j < i ==> s.take(i as int)[j] == #[trigger] t[j]);
            assert(t[i as int] == s[i as int]);
            assert(forall|j: int| 0 <= j <= i ==> #[trigger] t[j] == s[j]);
            if text::is_same(entry.pair.as_str(), pair.as_str()) {
                if let Some(level) = Self::quote_of(&entry.book, side) {
                    match best {
                        None => {
                            best = Some((i, level.price));
                            assert(is_best(t, pair@, side, i as int));
                        },
                        Some((b, price)) => {
                            let ghost u = s.take(i as int);
                            if Self::is_better(side, level.price, price) {
                                best = Some((i, level.price));
                                assert forall|j: int|
                                    0 <= j < t.len() && (#[trigger] t[j]).quotes(
                                        pair@,
                                        side,
                                    ) implies !better(
                                    side,
                                    t[j].quote(side)->Some_0.price,
                                    t[i as int].quote(side)->Some_0.price,
                                ) && (j < i ==> better(
                                    side,
                                    t[i as int].quote(side)->Some_0.price,
                                    t[j].quote(side)->Some_0.price,
                                )) by {
                                    if j < i {
                                        assert(u[j] == t[j]);
                                        assert(u[j].quotes(pair@, side));
                                    }
                                }
                                assert(is_best(t, pair@, side, i as int));
                            } else {
                                assert forall|j: int|
                                    0 <= j < t.len() && (#[trigger] t[j]).quotes(
                                        pair@,
                                        side,
                                    ) implies !better(
                                    side,
                                    t[j].quote(side)->Some_0.price,
                                    t[b as int].quote(side)->Some_0.price,
                                ) && (j < b ==> better(
                                    side,
                                    t[b as int].quote(side)->Some_0.price,
                                    t[j].quote(side)->Some_0.price,
                                )) by {
                                    if j < i {
                                        assert(u[j] == t[j]);
                                        assert(u[j].quotes(pair@, side));
                                    }
                                }
                                assert(is_best(t, pair@, side, b as int));
                            }
                        },
                    }
                }
            }
            proof {
                if !s[i as int].quotes(pair@, side) {
                    if let Some((b, price)) = best {
                        let u = s.take(i as int);
                        assert forall|j: int|
                            0 <= j < t.len() && (#[trigger] t[j]).quotes(pair@, side) implies !better(
                            side,
                            t[j].quote(side)->Some_0.price,
                            t[b as int].quote(side)->Some_0.price,
                        ) && (j < b ==> better(
                            side,
                            t[b as int].quote(side)->Some_0.price,
                            t[j].quote(side)->Some_0.price,
                        )) by {
                            assert(u[j] == t[j]);
                            assert(u[j].quotes(pair@, side));
                        }
                        assert(is_best(t, pair@, side, b as int));
                    }
                }
            }
            i += 1;
        }
        assert(s.take(i as int) =~= s);
        let mut out: Vec<OrderSlice> = Vec::new();
        match best {
            Some((b, price)) => {
                assert(s[b as int] == self.books@[b as int].v());
                proof {
                    let c = choose|c: int| is_best(s, pair@, side, c);
                    lemma_best_unique(s, pair@, side, b as int, c);
                }
                out.push(Self::slice(symbol, side, self.books[b].venue, price, qty));
            },
            None => {
                assert(!exists|c: int| is_best(s, pair@, side, c));
            },
        }
        assert(out.deep_view() =~= best_venue(s, symbol@, side, qty));
        out
    }

    /// The order split in proportion to depth.
    fn route_vwap(&self, symbol: &Symbol, side: Side, qty: Qty) -> (r: Vec<OrderSlice>)
        requires
            total_depth(self.entries(), symbol@.pair(), side) <= u64::MAX,
        ensures
            r.deep_view() == routed(self.entries(), symbol@, side, qty, RoutingAlgo::VWAP),
    {
        let pair = symbol.pair();
        let ghost s = self.entries();
        let ghost whole = total_depth(s, pair@, side);
        let mut total: u64 = 0;
        let mut i: usize = 0;
        while i < self.books.len()
            invariant
                s == self.entries(),
                i <= self.books@.len(),
                whole == total_depth(s, pair@, side),
                whole <= u64::MAX,
                total == total_depth(s.take(i as int), pair@, side),
            decreases self.books.len() - i,
        {
            let entry = &self.books[i];
            proof {
                assert(s[i as int] == entry.v());
                lemma_total_depth_take(s, i as int, pair@, side);
                lemma_total_depth_take(s, i + 1, pair@, side);
                assert(s.take(i + 1).drop_last() =~= s.take(i as int));
            }
            if text::is_same(entry.pair.as_str(), pair.as_str()) {
                if Self::quote_of(&entry.book, side).is_some() {
                    let depth: u64 = match side {
                        Side::Buy => entry.book.ask_depth(),
                        Side::Sell => entry.book.bid_depth(),
                    };
                    total = total + depth;
                }
            }
            i += 1;
        }
        assert(s.take(i as int) =~= s);
        let mut out: Vec<OrderSlice> = Vec::new();
        assert(out.deep_view() =~= Seq::empty());
        if total == 0 {
            return out;
        }
        let mut k: usize = 0;
        while k < self.books.len()
            invariant
                s == self.entries(),
                k <= self.books@.len(),
                pair@ == symbol@.pair(),
                whole == total_depth(s, pair@, side),
                total == whole,
                total > 0,
                out.deep_view() == proportional(s.take(k as int), symbol@, side, qty, whole),
            decreases self.books.len() - k,
        {
            let entry = &self.books[k];
            let ghost before = out.deep_view();
            proof {
                assert(s[k as int] == entry.v());
                lemma_total_depth_take(s, k as int, pair@, side);
                lemma_total_depth_take(s, k + 1, pair@, side);
                assert(s.take(k + 1).drop_last() =~= s.take(k as int));
            }
            if text::is_same(entry.pair.as_str(), pair.as_str()) {
                if let Some(level) = Self::quote_of(&entry.book, side) {
                    let depth: u64 = match side {
                        Side::Buy => entry.book.ask_depth(),
                        Side::Sell => entry.book.bid_depth(),
                    };
                    let part: u64 = share_of(qty.0, depth, total);
                    if part > 0 {
                        out.push(Self::slice(symbol, side, entry.venue, level.price, Qty(part)));
                        assert(out.deep_view() =~= before.push(
                            slice_of(symbol@, side, entry.venue, level.price, Qty(part)),
                        ));
                    }
                }
            }
            k += 1;
        }
        assert(s.take(k as int) =~= s);
        out
    }

    /// The order split into equal slices, each at the venue with the best price.
    pub fn route_twap(&self, symbol: &Symbol, side: Side, qty: Qty, slices: u32) -> (r: Vec<
        OrderSlice,
    >)
        requires
            slices > 0,
        ensures
            r.deep_view() == routed(
                self.entries(),
                symbol@,
                side,
                qty,
                RoutingAlgo::TWAP { slices, interval_ms: 0 },
            ),
    {
        let part: u64 = qty.0 / slices as u64;
        let mut result: Vec<OrderSlice> = Vec::new();
        assert(result.deep_view() =~= Seq::empty());
        if part == 0 {
            return result;
        }
        let ghost one = best_venue(self.entries(), symbol@, side, Qty(part));
        let mut i: u32 = 0;
        while i < slices
            invariant
                i <= slices,
                one == best_venue(self.entries(), symbol@, side, Qty(part)),
                one.len() <= 1,
                one.len() == 0 ==> result@.len() == 0,
                one.len() == 1 ==> result@.len() == i,
                forall|k: int| 0 <= k < result@.len() ==> (#[trigger] result@[k])@ == one[0],
            decreases slices - i,
        {
            let mut routed = self.route_best_venue(symbol, side, Qty(part));
            let ghost r0 = routed.deep_view();
            assert(r0 == one);
            proof {
                if one.len() == 1 {
                    assert(r0[0] == routed@[0]@);
                }
            }
            result.append(&mut routed);
            i += 1;
        }
        proof {
            if one.len() == 0 {
                assert(result.deep_view() =~= Seq::empty());
            } else {
                assert(result.deep_view() =~= Seq::new(slices as nat, |i: int| one[0]));
            }
        }
        result
    }

    /// The order spread over the levels of all venues, best price first.
    fn route_sweep(&self, symbol: &Symbol, side: Side, qty: Qty) -> (r: Vec<OrderSlice>)
        ensures
            r.deep_view() == routed(
                self.entries(),
                symbol@,
                side,
                qty,
                RoutingAlgo::LiquiditySweep,
            ),
    {
        let levels = self.sorted_levels(symbol, side);
        let ghost s = levels@;
        let mut remaining: u64 = qty.0;
        let mut out: Vec<OrderSlice> = Vec::new();
        let mut i: usize = 0;
        proof {
            assert(s.skip(0) =~= s);
            assert(out.deep_view() + swept(s, symbol@, side, qty.0 as int) =~= swept(
                s,
                symbol@,
                side,
                qty.0 as int,
            ));
        }
        while i < levels.len() && remaining > 0
            invariant
                s == levels@,
                i <= levels@.len(),
                swept(s, symbol@, side, qty.0 as int) == out.deep_view() + swept(
                    s.skip(i as int),
                    symbol@,
                    side,
                    remaining as int,
                ),
            decreases levels.len() - i,
        {
            let ghost before = out.deep_view();
            let x = &levels[i];
            let fill: u64 = if remaining < x.level.qty.0 {
                remaining
            } else {
                x.level.qty.0
            };
            out.push(Self::slice(symbol, side, x.venue, x.level.price, Qty(fill)));
            proof {
                let piece = slice_of(symbol@, side, x.venue, x.level.price, Qty(fill));
                assert(out.deep_view() =~= before.push(piece));
                assert(s.skip(i as int).skip(1) =~= s.skip(i + 1));
                let rest = swept(s.skip(i + 1), symbol@, side, remaining - fill);
                assert(before + (seq![piece] + rest) =~= before.push(piece) + rest);
            }
            remaining = remaining - fill;
            i += 1;
        }
        assert(out.deep_view() + Seq::<OrderSliceView>::empty() =~= out.deep_view());
        out
    }

    /// The first levels of all venues for a pair, best price first.
    fn sorted_levels(&self, symbol: &Symbol, side: Side) -> (r: Vec<VenueLevel>)
        ensures
            r@ == best_first(gathered(self.entries(), symbol@.pair(), side), side),
    {
        let pair = symbol.pair();
        let ghost s = self.entries();
        let mut all: Vec<VenueLevel> = Vec::new();
        let mut i: usize = 0;
        while i < self.books.len()
            invariant
                s == self.entries(),
                i <= self.books@.len(),
                all@ == best_first(gathered(s.take(i as int), pair@, side), side),
            decreases self.books.len() - i,
        {
            let entry = &self.books[i];
            let ghost before = gathered(s.take(i as int), pair@, side);
            proof {
                assert(s[i as int] == entry.v());
                assert(s.take(i + 1).drop_last() =~= s.take(i as int));
            }
            if text::is_same(entry.pair.as_str(), pair.as_str()) {
                let levels: Vec<Level> = match side {
                    Side::Buy => entry.book.top_asks(20),
                    Side::Sell => entry.book.top_bids(20),
                };
                let ghost near = near_levels(s[i as int], side);
                let mut k: usize = 0;
                assert(levels@.len() == near.len());
                assert(forall|j: int|
                    0 <= j < near.len() ==> (#[trigger] near[j]) == (VenueLevel {
                        venue: entry.venue,
                        level: levels@[j],
                    }));
                assert(before + near.take(0) =~= before);
                while k < levels.len()
                    invariant
                        k <= levels@.len(),
                        levels@.len() == near.len(),
                        forall|j: int|
                            0 <= j < near.len() ==> (#[trigger] near[j]) == (VenueLevel {
                                venue: entry.venue,
                                level: levels@[j],
                            }),
                        all@ == best_first(before + near.take(k as int), side),
                    decreases levels.len() - k,
                {
                    let x = VenueLevel { venue: entry.venue, level: levels[k] };
                    proof {
                        let next = before + near.take(k + 1);
                        assert(next.drop_last() =~= before + near.take(k as int));
                        assert(next.last() == near[k as int]);
                    }
                    place(&mut all, x, side);
                    k += 1;
                }
                assert(near.take(k as int) =~= near);
            }
            i += 1;
        }
        assert(s.take(i as int) =~= s);
        all
    }
}

/// Puts a level into a list sorted by price, behind those that are as good.
fn place(sorted: &mut Vec<VenueLevel>, x: VenueLevel, side: Side)
    ensures
        final(sorted)@ == placed(old(sorted)@, x, side),
{
    let ghost s = sorted@;
    let mut at: usize = sorted.len();
    assert(s.take(at as int) =~= s);
    assert(placed(s, x, side) =~= placed(s.take(at as int), x, side) + s.skip(at as int));
    while at > 0 && SmartOrderRouter::is_better(
        side,
        x.level.price,
        sorted[at - 1].level.price,
    )
        invariant
            s == sorted@,
            at <= s.len(),
            placed(s, x, side) == placed(s.take(at as int), x, side) + s.skip(at as int),
        decreases at,
    {
        proof {
            let t = s.take(at as int);
            assert(t.last() == s[at - 1]);
            assert(t.drop_last() =~= s.take(at - 1));
            assert(seq![s[at - 1]] + s.skip(at as int) =~= s.skip(at - 1));
            let p = placed(s.take(at - 1), x, side);
            assert(p.push(s[at - 1]) + s.skip(at as int) =~= p + s.skip(at - 1));
        }
        at -= 1;
    }
    proof {
        let t = s.take(at as int);
        if at > 0 {
            assert(t.last() == s[at - 1]);
        }
        assert(t.push(x) + s.skip(at as int) =~= s.insert(at as int, x));
    }
    sorted.insert(at, x);
}

/// `qty * part / whole` rounded to the nearest integer, halves up.
fn share_of(qty: u64, part: u64, whole: u64) -> (r: u64)
    requires
        part <= whole,
        whole > 0,
    ensures
        r == share(qty as nat, part as nat, whole as nat),
        r <= qty,
{
    proof {
        assert(qty * part <= u64::MAX * u64::MAX) by (nonlinear_arith)
            requires
                qty <= u64::MAX,
                part <= u64::MAX,
        ;
    }
    let product: u128 = qty as u128 * part as u128;
    let floor: u128 = product / whole as u128;
    let rest: u128 = product % whole as u128;
    proof {
        let q = qty as int;
        let p = part as int;
        let w = whole as int;
        let f = floor as int;
        let m = rest as int;
        assert(w * f + m == q * p && 0 <= m < w) by {
            vstd::arithmetic::div_mod::lemma_fundamental_div_mod(q * p, w);
            assert(w * f == f * w) by (nonlinear_arith);
        }
        assert(q * p <= q * w) by (nonlinear_arith)
            requires
                0 <= p <= w,
                q >= 0,
        ;
        assert(f <= q && (m > 0 ==> f < q)) by (nonlinear_arith)
            requires
                w > 0,
                w * f + m == q * p,
                q * p <= q * w,
                0 <= m < w,
        ;
    }
    if rest * 2 >= whole as u128 {
        (floor + 1) as u64
    } else {
        floor as u64
    }
}

/// The depth of a part of the entries is at most that of all, and so is that of its last.
proof fn lemma_total_depth_take(s: Seq<VenueBookView>, n: int, pair: Seq<char>, side: Side)
    requires
        0 <= n <= s.len(),
    ensures
        total_depth(s.take(n), pair, side) <= total_depth(s, pair, side),
        n > 0 && s[n - 1].quotes(pair, side) ==> s[n - 1].depth(side) <= total_depth(
            s,
            pair,
            side,
        ),
    decreases s.len() - n,
{
    if n == s.len() {
        assert(s.take(n) =~= s);
    } else {
        lemma_total_depth_take(s, n + 1, pair, side);
        assert(s.take(n + 1).drop_last() =~= s.take(n));
        if n > 0 {
            assert(s.take(n).last() == s[n - 1]);
        }
    }
}

/// Putting a book in changes the entry for its pair and venue, or adds one.
proof fn lemma_with_book(s: Seq<VenueBookView>, entry: VenueBookView, i: int)
    requires
        distinct_books(s),
        0 <= i <= s.len(),
        forall|k: int|
            0 <= k < i ==> !((#[trigger] s[k]).pair == entry.pair && s[k].venue == entry.venue),
        i < s.len() ==> s[i].pair == entry.pair && s[i].venue == entry.venue,
    ensures
        with_book(s, entry) == (if i < s.len() {
            s.update(i, entry)
        } else {
            s.push(entry)
        }),
        distinct_books(with_book(s, entry)),
    decreases s.len(),
{
    let expected = if i < s.len() {
        s.update(i, entry)
    } else {
        s.push(entry)
    };
    if s.len() == 0 {
        assert(expected =~= seq![entry]);
    } else if i == 0 {
        assert(expected =~= seq![entry] + s.skip(1));
    } else {
        assert(s[0].pair != entry.pair || s[0].venue != entry.venue);
        let t = s.skip(1);
        assert forall|a: int, b: int| 0 <= a < b < t.len() implies (#[trigger] t[a]).pair != (
        #[trigger] t[b]).pair || t[a].venue != t[b].venue by {
            assert(t[a] == s[a + 1]);
            assert(t[b] == s[b + 1]);
        }
        assert forall|k: int| 0 <= k < i - 1 implies !((#[trigger] t[k]).pair == entry.pair
            && t[k].venue == entry.venue) by {
            assert(t[k] == s[k + 1]);
        }
        lemma_with_book(t, entry, i - 1);
        assert(expected =~= seq![s[0]] + with_book(t, entry));
    }
    assert forall|a: int, b: int| 0 <= a < b < expected.len() implies (#[trigger] expected[a]).pair
        != (#[trigger] expected[b]).pair || expected[a].venue != expected[b].venue by {
        if a < s.len() && b < s.len() {
            assert(s[a].pair != s[b].pair || s[a].venue != s[b].venue);
        }
    }
}

/// A share is the integer nearest to the exact proportion.
pub proof fn share_is_nearest(qty: nat, part: nat, whole: nat)
    requires
        whole > 0,
    ensures
        -whole <= 2 * (whole * share(qty, part, whole)) - 2 * (qty * part) <= whole,
{
    let exact = (qty * part) as int;
    let w = whole as int;
    vstd::arithmetic::div_mod::lemma_fundamental_div_mod(exact, w);
    let floor = exact / w;
    let rest = exact % w;
    assert(w * (floor + 1) == w * floor + w) by (nonlinear_arith);
    assert(whole * share(qty, part, whole) == w * share(qty, part, whole) as int);
}

/// The total quantity of slices.
pub open spec fn sliced(slices: Seq<OrderSliceView>) -> nat
    decreases slices.len(),
{
    if slices.len() == 0 {
        0
    } else {
        sliced(slices.drop_last()) + slices.last().qty.0 as nat
    }
}

/// How many entries an order can trade against.
pub open spec fn quoting(entries: Seq<VenueBookView>, pair: Seq<char>, side: Side) -> nat
    decreases entries.len(),
{
    if entries.len() == 0 {
        0
    } else {
        quoting(entries.drop_last(), pair, side) + if entries.last().quotes(pair, side) {
            1nat
        } else {
            0nat
        }
    }
}

/// What a split in proportion to depth adds up to, before dividing by the whole depth.
proof fn lemma_proportional_total(
    entries: Seq<VenueBookView>,
    symbol: SymbolView,
    side: Side,
    qty: Qty,
    whole: nat,
)
    requires
        whole > 0,
        total_depth(entries, symbol.pair(), side) <= whole,
    ensures
        ({
            let total = sliced(proportional(entries, symbol, side, qty, whole));
            let part = total_depth(entries, symbol.pair(), side);
            let n = quoting(entries, symbol.pair(), side);
            -(n * whole) <= 2 * (whole * total) - 2 * (qty.0 * part) <= n * whole
        }),
    decreases entries.len(),
{
    if entries.len() > 0 {
        let front = entries.drop_last();
        let entry = entries.last();
        let pair = symbol.pair();
        lemma_proportional_total(front, symbol, side, qty, whole);
        let before = proportional(front, symbol, side, qty, whole);
        let all = proportional(entries, symbol, side, qty, whole);
        if entry.quotes(pair, side) {
            let d = entry.depth(side);
            let q = qty.0 as nat;
            let piece = share(q, d, whole);
            share_is_nearest(q, d, whole);
            assert(piece <= q) by {
                lemma_share_bound(q, d, whole);
            }
            if piece > 0 {
                assert(all.drop_last() =~= before);
                assert(all.last().qty.0 == piece);
            }
            let t0 = sliced(before);
            let p0 = total_depth(front, pair, side);
            let n0 = quoting(front, pair, side);
            assert(sliced(all) == t0 + piece);
            assert(whole * (t0 + piece) == whole * t0 + whole * piece) by (nonlinear_arith);
            assert(q * (p0 + d) == q * p0 + q * d) by (nonlinear_arith);
            assert((n0 + 1) * whole == n0 * whole + whole) by (nonlinear_arith);
        }
    } else {
        assert(qty.0 * 0 == 0);
        assert(0 * whole == 0);
        assert(whole * 0 == 0);
    }
}

/// A share of a part is at most the quantity.
proof fn lemma_share_bound(qty: nat, part: nat, whole: nat)
    requires
        whole > 0,
        part <= whole,
    ensures
        share(qty, part, whole) <= qty,
{
    let q = qty as int;
    let p = part as int;
    let w = whole as int;
    let f = (q * p) / w;
    let m = (q * p) % w;
    vstd::arithmetic::div_mod::lemma_fundamental_div_mod(q * p, w);
    assert(q * p <= q * w) by (nonlinear_arith)
        requires
            0 <= p <= w,
            q >= 0,
    ;
    assert(f <= q && (m > 0 ==> f < q)) by (nonlinear_arith)
        requires
            w > 0,
            w * f + m == q * p,
            q * p <= q * w,
            0 <= m < w,
    ;
}

/// A split in proportion to depth adds up to the order, give or take half a unit for each venue.
pub proof fn vwap_total(
    entries: Seq<VenueBookView>,
    symbol: SymbolView,
    side: Side,
    qty: Qty,
)
    requires
        total_depth(entries, symbol.pair(), side) > 0,
    ensures
        ({
            let total = sliced(routed(entries, symbol, side, qty, RoutingAlgo::VWAP));
            let n = quoting(entries, symbol.pair(), side);
            -n <= 2 * total - 2 * qty.0 <= n
        }),
{
    let whole = total_depth(entries, symbol.pair(), side);
    lemma_proportional_total(entries, symbol, side, qty, whole);
    let total = sliced(routed(entries, symbol, side, qty, RoutingAlgo::VWAP)) as int;
    let n = quoting(entries, symbol.pair(), side) as int;
    let w = whole as int;
    let q = qty.0 as int;
    assert(-n <= 2 * total - 2 * q <= n) by (nonlinear_arith)
        requires
            w > 0,
            -(n * w) <= 2 * (w * total) - 2 * (q * w) <= n * w,
    ;
}

/// An order that is split over time becomes copies of what the best venue is sent for an equal
/// part of it. They add up to the order but for the rest of the division. There are none where
/// no venue quotes, or where there are more slices than units.
pub proof fn twap_total(
    entries: Seq<VenueBookView>,
    symbol: SymbolView,
    side: Side,
    qty: Qty,
    slices: u32,
    interval_ms: u64,
)
    requires
        slices > 0,
    ensures
        ({
            let parts = routed(
                entries,
                symbol,
                side,
                qty,
                RoutingAlgo::TWAP { slices, interval_ms },
            );
            let part = Qty(qty.0 / slices as u64);
            let best = routed(entries, symbol, side, part, RoutingAlgo::BestVenue);
            if qty.0 < slices || best.len() == 0 {
                parts.len() == 0
            } else {
                &&& best.len() == 1
                &&& parts.len() == slices
                &&& forall|i: int| 0 <= i < parts.len() ==> #[trigger] parts[i] == best[0]
                &&& sliced(parts) == qty.0 - qty.0 % slices as u64
            }
        }),
{
    let parts = routed(entries, symbol, side, qty, RoutingAlgo::TWAP { slices, interval_ms });
    let part = qty.0 / slices as u64;
    let best = routed(entries, symbol, side, Qty(part), RoutingAlgo::BestVenue);
    let q = qty.0 as int;
    let n = slices as int;
    vstd::arithmetic::div_mod::lemma_fundamental_div_mod(q, n);
    assert(q >= n ==> part > 0) by (nonlinear_arith)
        requires
            n > 0,
            part == q / n,
    ;
    assert(0 <= q < n ==> part == 0) by (nonlinear_arith)
        requires
            n > 0,
            part == q / n,
    ;
    if q >= n && best.len() > 0 {
        lemma_sliced_copies(parts, part as nat);
        assert(slices * part == n * (q / n));
    }
}

/// The total quantity of equal slices.
proof fn lemma_sliced_copies(parts: Seq<OrderSliceView>, part: nat)
    requires
        forall|i: int| 0 <= i < parts.len() ==> (#[trigger] parts[i]).qty.0 == part,
    ensures
        sliced(parts) == parts.len() * part,
    decreases parts.len(),
{
    if parts.len() > 0 {
        lemma_sliced_copies(parts.drop_last(), part);
        assert(parts.len() * part == (parts.len() - 1) * part + part) by (nonlinear_arith);
    } else {
        assert(0 * part == 0);
    }
}

/// Putting a level into a sorted list keeps it sorted and adds just that level.
proof fn lemma_placed(sorted: Seq<VenueLevel>, x: VenueLevel, side: Side)
    requires
        is_best_first(sorted, side),
    ensures
        is_best_first(placed(sorted, x, side), side),
        placed(sorted, x, side).to_multiset() == sorted.to_multiset().insert(x),
    decreases sorted.len(),
{
    broadcast use vstd::seq_lib::group_to_multiset_ensures;

    if sorted.len() == 0 || !better(side, x.level.price, sorted.last().level.price) {
        let t = sorted.push(x);
        assert forall|i: int, j: int| 0 <= i < j < t.len() implies !better(
            side,
            (#[trigger] t[j]).level.price,
            (#[trigger] t[i]).level.price,
        ) by {
            if j == sorted.len() && i < sorted.len() - 1 {
                assert(!better(side, sorted.last().level.price, sorted[i].level.price));
            }
        }
    } else {
        let front = sorted.drop_last();
        let last = sorted.last();
        lemma_placed(front, x, side);
        let p = placed(front, x, side);
        let t = p.push(last);
        assert(sorted =~= front.push(last));
        assert(t.to_multiset() =~= sorted.to_multiset().insert(x));
        assert forall|i: int, j: int| 0 <= i < j < t.len() implies !better(
            side,
            (#[trigger] t[j]).level.price,
            (#[trigger] t[i]).level.price,
        ) by {
            if j == p.len() {
                assert(p.to_multiset().contains(p[i])) by {
                    assert(p.contains(p[i]));
                }
                if p[i] != x {
                    assert(front.to_multiset().contains(p[i]));
                    assert(front.contains(p[i]));
                    let k = choose|k: int| 0 <= k < front.len() && front[k] == p[i];
                    assert(!better(side, sorted[sorted.len() - 1].level.price, sorted[k].level.price));
                }
            }
        }
    }
}

/// Whether no level of a list has a better price than one before it.
pub open spec fn is_best_first(levels: Seq<VenueLevel>, side: Side) -> bool {
    forall|i: int, j: int|
        0 <= i < j < levels.len() ==> !better(
            side,
            (#[trigger] levels[j]).level.price,
            (#[trigger] levels[i]).level.price,
        )
}

/// A sweep looks at exactly the gathered levels, best price first.
pub proof fn sweep_order(levels: Seq<VenueLevel>, side: Side)
    ensures
        is_best_first(best_first(levels, side), side),
        best_first(levels, side).to_multiset() == levels.to_multiset(),
    decreases levels.len(),
{
    broadcast use vstd::seq_lib::group_to_multiset_ensures;

    if levels.len() > 0 {
        sweep_order(levels.drop_last(), side);
        lemma_placed(best_first(levels.drop_last(), side), levels.last(), side);
        assert(levels =~= levels.drop_last().push(levels.last()));
    }
}

/// The total quantity of levels.
pub open spec fn offered(levels: Seq<VenueLevel>) -> nat
    decreases levels.len(),
{
    if levels.len() == 0 {
        0
    } else {
        levels[0].level.qty.0 as nat + offered(levels.skip(1))
    }
}

/// A sweep takes the whole order, or all that is offered where that is less, and from no level
/// more than it offers.
pub proof fn sweep_total(levels: Seq<VenueLevel>, symbol: SymbolView, side: Side, wanted: nat)
    requires
        wanted <= u64::MAX,
    ensures
        sliced(swept(levels, symbol, side, wanted as int)) == num::min(
            wanted as int,
            offered(levels) as int,
        ),
        swept(levels, symbol, side, wanted as int).len() <= levels.len(),
        forall|i: int|
            0 <= i < swept(levels, symbol, side, wanted as int).len() ==> {
                let slice = #[trigger] swept(levels, symbol, side, wanted as int)[i];
                slice.venue == levels[i].venue && slice.price == levels[i].level.price
                    && slice.qty.0 <= levels[i].level.qty.0
            },
    decreases levels.len(),
{
    if levels.len() > 0 && wanted > 0 {
        let x = levels[0];
        let fill = book::taken(wanted as int, x.level);
        let rest = swept(levels.skip(1), symbol, side, wanted - fill);
        sweep_total(levels.skip(1), symbol, side, (wanted - fill) as nat);
        let head = slice_of(symbol, side, x.venue, x.level.price, Qty(fill as u64));
        let all = swept(levels, symbol, side, wanted as int);
        assert(all =~= seq![head] + rest);
        lemma_sliced_front(head, rest);
        assert forall|i: int| 0 <= i < all.len() implies {
            let slice = #[trigger] all[i];
            slice.venue == levels[i].venue && slice.price == levels[i].level.price
                && slice.qty.0 <= levels[i].level.qty.0
        } by {
            if i > 0 {
                assert(all[i] == rest[i - 1]);
                assert(levels.skip(1)[i - 1] == levels[i]);
            }
        }
    }
}

/// The total quantity with one more slice in front.
proof fn lemma_sliced_front(head: OrderSliceView, rest: Seq<OrderSliceView>)
    ensures
        sliced(seq![head] + rest) == head.qty.0 + sliced(rest),
    decreases rest.len(),
{
    reveal_with_fuel(sliced, 2);
    let all = seq![head] + rest;
    if rest.len() == 0 {
        assert(all.drop_last() =~= Seq::empty());
        assert(all.last() == head);
    } else {
        lemma_sliced_front(head, rest.drop_last());
        assert(all.drop_last() =~= seq![head] + rest.drop_last());
    }
}

/// Whether the books of all entries have finitely many levels.
pub open spec fn finite_books(entries: Seq<VenueBookView>) -> bool {
    forall|k: int|
        0 <= k < entries.len() ==> (#[trigger] entries[k]).book.bids.dom().finite()
            && entries[k].book.asks.dom().finite()
}

/// The side of a book that an order on a side can trade with: the asks for a buyer, and the bids
/// for a seller.
pub open spec fn counterpart(book: OrderBookView, side: Side) -> book::Levels {
    if side == Side::Buy {
        book.asks
    } else {
        book.bids
    }
}

/// Whether a book offers a quantity at a price to an order on a side: someone asks it from a
/// buyer, or bids it to a seller.
pub open spec fn offers(book: OrderBookView, side: Side, price: Price, qty: Qty) -> bool {
    if side == Side::Buy {
        book.asks.contains_key(price.0) && book.asks[price.0] == qty
    } else {
        book.bids.contains_key(price.0) && book.bids[price.0] == qty
    }
}

/// Whether a level is the `n`-th that an order trades against at the `k`-th entry, and one of the
/// first twenty.
spec fn stands(
    entries: Seq<VenueBookView>,
    pair: Seq<char>,
    side: Side,
    x: VenueLevel,
    k: int,
    n: int,
) -> bool {
    &&& 0 <= k < entries.len() && entries[k].pair == pair && entries[k].venue == x.venue
    &&& 0 <= n < 20 && n < entries[k].book.opposite(side).len()
    &&& entries[k].book.opposite(side)[n] == x.level
}

/// A gathered level is one of the first twenty of an entry for the pair, and each of those is
/// gathered.
proof fn lemma_gathered(entries: Seq<VenueBookView>, pair: Seq<char>, side: Side, x: VenueLevel)
    ensures
        gathered(entries, pair, side).contains(x) <==> exists|k: int, n: int|
            stands(entries, pair, side, x, k, n),
    decreases entries.len(),
{
    if entries.len() > 0 {
        let front = entries.drop_last();
        let last = entries.last();
        let before = gathered(front, pair, side);
        let all = gathered(entries, pair, side);
        let here = entries.len() - 1;
        lemma_gathered(front, pair, side, x);
        if all.contains(x) {
            let i = choose|i: int| 0 <= i < all.len() && all[i] == x;
            if i < before.len() {
                assert(before[i] == x);
                let (k, n) = choose|k: int, n: int| stands(front, pair, side, x, k, n);
                assert(front[k] == entries[k]);
                assert(stands(entries, pair, side, x, k, n));
            } else {
                assert(near_levels(last, side)[i - before.len()] == x);
                assert(stands(entries, pair, side, x, here, i - before.len()));
            }
        }
        if exists|k: int, n: int| stands(entries, pair, side, x, k, n) {
            let (k, n) = choose|k: int, n: int| stands(entries, pair, side, x, k, n);
            if k < here {
                assert(front[k] == entries[k]);
                assert(stands(front, pair, side, x, k, n));
                let i = choose|i: int| 0 <= i < before.len() && before[i] == x;
                assert(all[i] == x);
            } else {
                assert(near_levels(last, side)[n] == x);
                assert(all[before.len() + n] == x);
            }
        }
    }
}

/// Every slice of a sweep names a venue whose book for the pair has a level at the slice's price
/// with at least the slice's quantity: an ask where the order buys, a bid where it sells. All but
/// the last slice take the whole of their level.
pub proof fn sweeps_take_offered_levels(
    entries: Seq<VenueBookView>,
    symbol: SymbolView,
    side: Side,
    qty: Qty,
    i: int,
)
    requires
        finite_books(entries),
        0 <= i < routed(entries, symbol, side, qty, RoutingAlgo::LiquiditySweep).len(),
    ensures
        ({
            let slices = routed(entries, symbol, side, qty, RoutingAlgo::LiquiditySweep);
            let slice = slices[i];
            &&& slice.symbol == symbol && slice.side == side
            &&& slice.order_type == OrderType::Limit
            &&& slice.time_in_force == TimeInForce::ImmediateOrCancel
            &&& exists|k: int, q: Qty|
                0 <= k < entries.len() && entries[k].pair == symbol.pair() && entries[k].venue
                    == slice.venue && #[trigger] offers(entries[k].book, side, slice.price, q)
                    && slice.qty.0 <= q.0 && (i < slices.len() - 1 ==> slice.qty == q)
        }),
{
    let pair = symbol.pair();
    let levels = gathered(entries, pair, side);
    let sorted = best_first(levels, side);
    let slices = routed(entries, symbol, side, qty, RoutingAlgo::LiquiditySweep);
    sweep_order(levels, side);
    sweep_total(sorted, symbol, side, qty.0 as nat);
    lemma_swept(sorted, symbol, side, qty.0 as int);
    let x = sorted[i];
    lemma_same_members(sorted, levels, x);
    lemma_gathered(entries, pair, side, x);
    let (k, n) = choose|k: int, n: int| stands(entries, pair, side, x, k, n);
    book::orders_meet_the_other_side(entries[k].book, side, 0);
    assert(slices[i] == swept(sorted, symbol, side, qty.0 as int)[i]);
    assert(offers(entries[k].book, side, slices[i].price, x.level.qty));
}

/// Lists with the same members, each as often, have the same members.
proof fn lemma_same_members(s: Seq<VenueLevel>, t: Seq<VenueLevel>, x: VenueLevel)
    requires
        s.to_multiset() == t.to_multiset(),
    ensures
        s.contains(x) == t.contains(x),
{
    broadcast use vstd::seq_lib::group_to_multiset_ensures;

    assert(s.contains(x) <==> s.to_multiset().count(x) > 0);
    assert(t.contains(x) <==> t.to_multiset().count(x) > 0);
}

/// What every slice of a sweep holds.
proof fn lemma_swept(levels: Seq<VenueLevel>, symbol: SymbolView, side: Side, wanted: int)
    requires
        wanted <= u64::MAX,
    ensures
        ({
            let all = swept(levels, symbol, side, wanted);
            &&& forall|i: int|
                0 <= i < all.len() ==> (#[trigger] all[i]).symbol == symbol && all[i].side == side
                    && all[i].order_type == OrderType::Limit && all[i].time_in_force
                    == TimeInForce::ImmediateOrCancel
            &&& all.len() <= levels.len()
            &&& forall|i: int|
                0 <= i < all.len() - 1 ==> (#[trigger] all[i]).qty == levels[i].level.qty
        }),
    decreases levels.len(),
{
    if levels.len() > 0 && wanted > 0 {
        let x = levels[0];
        let fill = book::taken(wanted, x.level);
        let rest = swept(levels.skip(1), symbol, side, wanted - fill);
        lemma_swept(levels.skip(1), symbol, side, wanted - fill);
        let all = swept(levels, symbol, side, wanted);
        assert(all.skip(1) =~= rest);
        assert forall|i: int| 0 <= i < all.len() implies (#[trigger] all[i]).symbol == symbol
            && all[i].side == side && all[i].order_type == OrderType::Limit
            && all[i].time_in_force == TimeInForce::ImmediateOrCancel by {
            if i > 0 {
                assert(all[i] == rest[i - 1]);
            }
        }
        assert forall|i: int| 0 <= i < all.len() - 1 implies (#[trigger] all[i]).qty
            == levels[i].level.qty by {
            if i > 0 {
                assert(all[i] == rest[i - 1]);
                assert(levels[i] == levels.skip(1)[i - 1]);
            } else {
                assert(rest.len() > 0);
                assert(wanted - fill > 0);
            }
        }
    }
}

/// A sweep goes from the best price to the worst, and passes over no level that is better than one
/// it takes: each of the first twenty levels of a venue with a better price than some slice has
/// is a slice of its own, with all of its quantity.
pub proof fn sweeps_pass_over_nothing_better(
    entries: Seq<VenueBookView>,
    symbol: SymbolView,
    side: Side,
    qty: Qty,
    j: int,
    k: int,
    n: int,
)
    requires
        0 <= j < routed(entries, symbol, side, qty, RoutingAlgo::LiquiditySweep).len(),
        0 <= k < entries.len(),
        entries[k].pair == symbol.pair(),
        0 <= n < 20,
        n < entries[k].book.opposite(side).len(),
        ({
            let price = entries[k].book.opposite(side)[n].price.0;
            let worse =
                routed(entries, symbol, side, qty, RoutingAlgo::LiquiditySweep)[j].price.0;
            if side == Side::Buy {
                price < worse
            } else {
                price > worse
            }
        }),
    ensures
        ({
            let slices = routed(entries, symbol, side, qty, RoutingAlgo::LiquiditySweep);
            let level = entries[k].book.opposite(side)[n];
            &&& exists|i: int|
                0 <= i < j && (#[trigger] slices[i]).venue == entries[k].venue && slices[i].price
                    == level.price && slices[i].qty == level.qty
            &&& forall|i: int|
                0 <= i < j ==> if side == Side::Buy {
                    (#[trigger] slices[i]).price.0 <= slices[j].price.0
                } else {
                    slices[i].price.0 >= slices[j].price.0
                }
        }),
{
    let pair = symbol.pair();
    let levels = gathered(entries, pair, side);
    let sorted = best_first(levels, side);
    let slices = swept(sorted, symbol, side, qty.0 as int);
    let x = VenueLevel { venue: entries[k].venue, level: entries[k].book.opposite(side)[n] };
    lemma_gathered(entries, pair, side, x);
    assert(stands(entries, pair, side, x, k, n));
    sweep_order(levels, side);
    lemma_same_members(sorted, levels, x);
    sweep_total(sorted, symbol, side, qty.0 as nat);
    lemma_swept(sorted, symbol, side, qty.0 as int);
    let m = choose|m: int| 0 <= m < sorted.len() && sorted[m] == x;
    assert(slices[j].price == sorted[j].level.price);
    if m > j {
        assert(!better(side, sorted[m].level.price, sorted[j].level.price));
    }
    assert(m < j);
    assert(slices[m].venue == x.venue && slices[m].price == x.level.price);
    assert(slices[m].qty == x.level.qty);
    assert forall|i: int| 0 <= i < j implies if side == Side::Buy {
        (#[trigger] slices[i]).price.0 <= slices[j].price.0
    } else {
        slices[i].price.0 >= slices[j].price.0
    } by {
        assert(slices[i].price == sorted[i].level.price);
        assert(!better(side, sorted[j].level.price, sorted[i].level.price));
    }
}

/// What the first twenty levels of each venue offer to an order: asks to a buyer, cheapest first,
/// and bids to a seller, dearest first.
pub open spec fn within_reach(entries: Seq<VenueBookView>, pair: Seq<char>, side: Side) -> nat
    decreases entries.len(),
{
    if entries.len() == 0 {
        0
    } else {
        let entry = entries.last();
        let levels = if side == Side::Buy {
            book::ascending(entry.book.asks)
        } else {
            book::descending(entry.book.bids)
        };
        let first = if levels.len() <= 20 {
            levels
        } else {
            levels.take(20)
        };
        within_reach(entries.drop_last(), pair, side) + if entry.pair == pair {
            book::quantity(first)
        } else {
            0
        }
    }
}

/// The quantities of the levels of one venue add up as in its book.
proof fn lemma_offered_levels(levels: Seq<Level>, venue: Venue)
    ensures
        offered(levels.map_values(|l: Level| VenueLevel { venue, level: l })) == book::quantity(
            levels,
        ),
    decreases levels.len(),
{
    let s = levels.map_values(|l: Level| VenueLevel { venue, level: l });
    if levels.len() > 0 {
        let front = levels.drop_last();
        lemma_offered_levels(front, venue);
        let t = front.map_values(|l: Level| VenueLevel { venue, level: l });
        assert(s =~= t + seq![s.last()]);
        lemma_offered_concat(t, seq![s.last()]);
        reveal_with_fuel(offered, 2);
        assert(seq![s.last()].skip(1) =~= Seq::empty());
        book::depth_sums_quantities(front, levels.last(), Map::empty());
        assert(levels =~= front.push(levels.last()));
    } else {
        assert(levels =~= Seq::empty());
        book::depth_sums_quantities(levels, Level { price: Price(0), qty: Qty(0) }, Map::empty());
    }
}

/// Two lists offer together what each offers.
proof fn lemma_offered_concat(a: Seq<VenueLevel>, b: Seq<VenueLevel>)
    ensures
        offered(a + b) == offered(a) + offered(b),
    decreases a.len(),
{
    if a.len() == 0 {
        assert(a + b =~= b);
    } else {
        lemma_offered_concat(a.skip(1), b);
        assert((a + b).skip(1) =~= a.skip(1) + b);
    }
}

/// The gathered levels offer what is within reach.
proof fn lemma_gathered_total(entries: Seq<VenueBookView>, pair: Seq<char>, side: Side)
    ensures
        offered(gathered(entries, pair, side)) == within_reach(entries, pair, side),
    decreases entries.len(),
{
    if entries.len() > 0 {
        let entry = entries.last();
        lemma_gathered_total(entries.drop_last(), pair, side);
        if entry.pair == pair {
            let levels = entry.book.opposite(side);
            let first = if levels.len() <= 20 {
                levels
            } else {
                levels.take(20)
            };
            lemma_offered_levels(first, entry.venue);
            assert(near_levels(entry, side) =~= first.map_values(
                |l: Level| VenueLevel { venue: entry.venue, level: l },
            ));
            lemma_offered_concat(
                gathered(entries.drop_last(), pair, side),
                near_levels(entry, side),
            );
        }
    }
}

/// Putting a level into a list adds what it offers.
proof fn lemma_offered_placed(sorted: Seq<VenueLevel>, x: VenueLevel, side: Side)
    ensures
        offered(placed(sorted, x, side)) == offered(sorted) + x.level.qty.0,
    decreases sorted.len(),
{
    reveal_with_fuel(offered, 2);
    if sorted.len() == 0 || !better(side, x.level.price, sorted.last().level.price) {
        lemma_offered_concat(sorted, seq![x]);
        assert(sorted.push(x) =~= sorted + seq![x]);
        assert(seq![x].skip(1) =~= Seq::empty());
    } else {
        let front = sorted.drop_last();
        let last = sorted.last();
        lemma_offered_placed(front, x, side);
        lemma_offered_concat(placed(front, x, side), seq![last]);
        lemma_offered_concat(front, seq![last]);
        assert(placed(front, x, side).push(last) =~= placed(front, x, side) + seq![last]);
        assert(sorted =~= front + seq![last]);
        assert(seq![last].skip(1) =~= Seq::empty());
    }
}

/// Sorting a list keeps what it offers.
proof fn lemma_offered_sorted(levels: Seq<VenueLevel>, side: Side)
    ensures
        offered(best_first(levels, side)) == offered(levels),
    decreases levels.len(),
{
    if levels.len() > 0 {
        let front = levels.drop_last();
        let last = levels.last();
        lemma_offered_sorted(front, side);
        lemma_offered_placed(best_first(front, side), last, side);
        lemma_offered_concat(front, seq![last]);
        reveal_with_fuel(offered, 2);
        assert(seq![last].skip(1) =~= Seq::empty());
        assert(levels =~= front + seq![last]);
    }
}

/// A sweep routes the order, or all that the first twenty levels of each venue offer to it where
/// that is less.
pub proof fn sweeps_route_what_is_offered(
    entries: Seq<VenueBookView>,
    symbol: SymbolView,
    side: Side,
    qty: Qty,
)
    ensures
        ({
            let total = sliced(routed(entries, symbol, side, qty, RoutingAlgo::LiquiditySweep));
            let there = within_reach(entries, symbol.pair(), side);
            &&& qty.0 <= there ==> total == qty.0
            &&& qty.0 > there ==> total == there
        }),
{
    let levels = gathered(entries, symbol.pair(), side);
    lemma_gathered_total(entries, symbol.pair(), side);
    lemma_offered_sorted(levels, side);
    sweep_total(best_first(levels, side), symbol, side, qty.0 as nat);
}

/// Where an order can trade at all, some entry is the best.
proof fn lemma_best_exists(entries: Seq<VenueBookView>, pair: Seq<char>, side: Side, k: int)
    requires
        0 <= k < entries.len(),
        entries[k].quotes(pair, side),
    ensures
        exists|i: int| is_best(entries, pair, side, i),
    decreases entries.len(),
{
    let front = entries.drop_last();
    let n = entries.len() - 1;
    if exists|j: int| 0 <= j < front.len() && (#[trigger] front[j]).quotes(pair, side) {
        let j = choose|j: int| 0 <= j < front.len() && (#[trigger] front[j]).quotes(pair, side);
        lemma_best_exists(front, pair, side, j);
        let i = choose|i: int| is_best(front, pair, side, i);
        assert(front[i] == entries[i]);
        if entries[n].quotes(pair, side) && better(
            side,
            entries[n].quote(side)->Some_0.price,
            entries[i].quote(side)->Some_0.price,
        ) {
            assert(is_best(entries, pair, side, n)) by {
                assert forall|m: int| 0 <= m < n && (#[trigger] entries[m]).quotes(pair, side) implies better(
                    side,
                    entries[n].quote(side)->Some_0.price,
                    entries[m].quote(side)->Some_0.price,
                ) by {
                    assert(front[m] == entries[m]);
                }
            }
        } else {
            assert(is_best(entries, pair, side, i)) by {
                assert forall|m: int| 0 <= m < n && (#[trigger] entries[m]).quotes(pair, side) implies !better(
                    side,
                    entries[m].quote(side)->Some_0.price,
                    entries[i].quote(side)->Some_0.price,
                ) && (m < i ==> better(
                    side,
                    entries[i].quote(side)->Some_0.price,
                    entries[m].quote(side)->Some_0.price,
                )) by {
                    assert(front[m] == entries[m]);
                }
            }
        }
    } else {
        assert(k == n) by {
            if k < n {
                assert(front[k] == entries[k]);
            }
        }
        assert(is_best(entries, pair, side, n)) by {
            assert forall|m: int| 0 <= m < n implies !(#[trigger] entries[m]).quotes(pair, side) by {
                assert(front[m] == entries[m]);
            }
        }
    }
}

/// The best venue gets the whole order where any venue offers something for the pair, at a price
/// that it offers and that no venue's book for the pair is better than. Where none offers
/// anything, nothing is routed.
pub proof fn best_venue_has_the_best_price(
    entries: Seq<VenueBookView>,
    symbol: SymbolView,
    side: Side,
    qty: Qty,
    j: int,
    price: Price,
    there: Qty,
)
    requires
        finite_books(entries),
        0 <= j < entries.len(),
        entries[j].pair == symbol.pair(),
        offers(entries[j].book, side, price, there),
    ensures
        ({
            let slices = routed(entries, symbol, side, qty, RoutingAlgo::BestVenue);
            let slice = slices[0];
            &&& slices.len() == 1
            &&& slice.qty == qty && slice.symbol == symbol && slice.side == side
            &&& slice.order_type == OrderType::Limit
            &&& slice.time_in_force == TimeInForce::ImmediateOrCancel
            &&& side == Side::Buy ==> slice.price.0 <= price.0
            &&& side == Side::Sell ==> slice.price.0 >= price.0
            &&& exists|k: int, q: Qty|
                0 <= k < entries.len() && entries[k].pair == symbol.pair() && entries[k].venue
                    == slice.venue && #[trigger] offers(entries[k].book, side, slice.price, q)
        }),
{
    let pair = symbol.pair();
    book::best_prices(entries[j].book, price.0);
    assert(entries[j].quotes(pair, side));
    lemma_best_exists(entries, pair, side, j);
    let k = choose|k: int| is_best(entries, pair, side, k);
    book::best_prices(entries[k].book, price.0);
    let best = entries[k].quote(side)->Some_0;
    assert(offers(entries[k].book, side, best.price, best.qty));
    let slices = routed(entries, symbol, side, qty, RoutingAlgo::BestVenue);
    assert(slices =~= seq![slice_of(symbol, side, entries[k].venue, best.price, qty)]);
    assert(!better(side, entries[j].quote(side)->Some_0.price, best.price));
    assert(entries[k].venue == slices[0].venue);
    assert(offers(entries[k].book, side, slices[0].price, best.qty));
}

/// Nothing is routed to the best venue where no venue's book for the pair offers anything.
pub proof fn nothing_offered_nothing_routed(
    entries: Seq<VenueBookView>,
    symbol: SymbolView,
    side: Side,
    qty: Qty,
)
    requires
        finite_books(entries),
        forall|k: int, price: Price, q: Qty|
            0 <= k < entries.len() && entries[k].pair == symbol.pair() ==> !(#[trigger] offers(
                entries[k].book,
                side,
                price,
                q,
            )),
    ensures
        routed(entries, symbol, side, qty, RoutingAlgo::BestVenue).len() == 0,
{
    if exists|i: int| is_best(entries, symbol.pair(), side, i) {
        let i = choose|i: int| is_best(entries, symbol.pair(), side, i);
        book::best_prices(entries[i].book, 0);
        let best = entries[i].quote(side)->Some_0;
        assert(offers(entries[i].book, side, best.price, best.qty));
    }
}

/// What the books of all venues offer to an order for a pair: all asks to a buyer and all bids to
/// a seller.
pub open spec fn all_offered(entries: Seq<VenueBookView>, pair: Seq<char>, side: Side) -> nat
    decreases entries.len(),
{
    if entries.len() == 0 {
        0
    } else {
        all_offered(entries.drop_last(), pair, side) + if entries.last().pair == pair {
            book::depth(counterpart(entries.last().book, side))
        } else {
            0
        }
    }
}

/// What can be traded against is all that is offered.
proof fn lemma_total_depth(entries: Seq<VenueBookView>, pair: Seq<char>, side: Side)
    requires
        finite_books(entries),
    ensures
        total_depth(entries, pair, side) == all_offered(entries, pair, side),
    decreases entries.len(),
{
    if entries.len() > 0 {
        let front = entries.drop_last();
        let entry = entries.last();
        assert forall|k: int| 0 <= k < front.len() implies (
        #[trigger] front[k]).book.bids.dom().finite() && front[k].book.asks.dom().finite() by {
            assert(front[k] == entries[k]);
        }
        lemma_total_depth(front, pair, side);
        assert(entries[entries.len() - 1] == entry);
        if entry.pair == pair && entry.quote(side) is None {
            let m = counterpart(entry.book, side);
            assert(m.dom() =~= Set::empty());
            book::sides_are_sorted(m);
            assert(book::ascending(m) =~= Seq::empty());
            book::depth_sums_quantities(
                Seq::empty(),
                Level { price: Price(0), qty: Qty(0) },
                m,
            );
        }
    }
}

/// Where each slice of a split comes from, and that every venue with a part has a slice.
proof fn lemma_proportional(
    entries: Seq<VenueBookView>,
    symbol: SymbolView,
    side: Side,
    qty: Qty,
    whole: nat,
)
    ensures
        ({
            let slices = proportional(entries, symbol, side, qty, whole);
            &&& forall|i: int|
                0 <= i < slices.len() ==> exists|k: int|
                    #![trigger entries[k]]
                    0 <= k < entries.len() && entries[k].quotes(symbol.pair(), side) && share(
                        qty.0 as nat,
                        entries[k].depth(side),
                        whole,
                    ) > 0 && #[trigger] slices[i] == slice_of(
                        symbol,
                        side,
                        entries[k].venue,
                        entries[k].quote(side)->Some_0.price,
                        Qty(share(qty.0 as nat, entries[k].depth(side), whole) as u64),
                    )
            &&& forall|k: int|
                0 <= k < entries.len() && (#[trigger] entries[k]).quotes(symbol.pair(), side)
                    && share(qty.0 as nat, entries[k].depth(side), whole) > 0
                    ==> slices.contains(
                    slice_of(
                        symbol,
                        side,
                        entries[k].venue,
                        entries[k].quote(side)->Some_0.price,
                        Qty(share(qty.0 as nat, entries[k].depth(side), whole) as u64),
                    ),
                )
        }),
    decreases entries.len(),
{
    if entries.len() > 0 {
        let front = entries.drop_last();
        let entry = entries.last();
        let q = qty.0 as nat;
        lemma_proportional(front, symbol, side, qty, whole);
        let before = proportional(front, symbol, side, qty, whole);
        let slices = proportional(entries, symbol, side, qty, whole);
        assert(entries[entries.len() - 1] == entry);
        assert forall|i: int| 0 <= i < slices.len() implies exists|k: int|
            #![trigger entries[k]]
            0 <= k < entries.len() && entries[k].quotes(symbol.pair(), side) && share(
                q,
                entries[k].depth(side),
                whole,
            ) > 0 && #[trigger] slices[i] == slice_of(
                symbol,
                side,
                entries[k].venue,
                entries[k].quote(side)->Some_0.price,
                Qty(share(q, entries[k].depth(side), whole) as u64),
            ) by {
            if i < before.len() {
                assert(slices[i] == before[i]);
                let k = choose|k: int|
                    #![trigger front[k]]
                    0 <= k < front.len() && front[k].quotes(symbol.pair(), side) && share(
                        q,
                        front[k].depth(side),
                        whole,
                    ) > 0 && before[i] == slice_of(
                        symbol,
                        side,
                        front[k].venue,
                        front[k].quote(side)->Some_0.price,
                        Qty(share(q, front[k].depth(side), whole) as u64),
                    );
                assert(entries[k] == front[k]);
            }
        }
        assert forall|k: int|
            0 <= k < entries.len() && (#[trigger] entries[k]).quotes(symbol.pair(), side) && share(
                q,
                entries[k].depth(side),
                whole,
            ) > 0 implies slices.contains(
            slice_of(
                symbol,
                side,
                entries[k].venue,
                entries[k].quote(side)->Some_0.price,
                Qty(share(q, entries[k].depth(side), whole) as u64),
            ),
        ) by {
            let s = slice_of(
                symbol,
                side,
                entries[k].venue,
                entries[k].quote(side)->Some_0.price,
                Qty(share(q, entries[k].depth(side), whole) as u64),
            );
            if k < front.len() {
                assert(front[k] == entries[k]);
                assert(before.contains(s));
                let i = choose|i: int| 0 <= i < before.len() && before[i] == s;
                assert(slices[i] == s);
            } else {
                assert(slices[slices.len() - 1] == s);
            }
        }
    }
}

/// Whether a quantity is `qty * part / whole` rounded to the nearest integer, halves up.
pub open spec fn rounds_to(qty: int, part: int, whole: int, rounded: int) -> bool {
    2 * (whole * rounded) - whole <= 2 * (qty * part) < 2 * (whole * rounded) + whole
}

/// Exactly one integer is the nearest.
proof fn lemma_rounds_to(qty: nat, part: nat, whole: nat)
    requires
        whole > 0,
    ensures
        rounds_to(qty as int, part as int, whole as int, share(qty, part, whole) as int),
{
    let exact = (qty * part) as int;
    let w = whole as int;
    vstd::arithmetic::div_mod::lemma_fundamental_div_mod(exact, w);
    let floor = exact / w;
    assert(w * (floor + 1) == w * floor + w) by (nonlinear_arith);
    assert(whole * share(qty, part, whole) == w * share(qty, part, whole) as int);
    assert(exact == qty as int * part as int);
}

/// A split by depth sends each venue its part of the order: the order times the venue's depth over
/// the depth of all venues, rounded to the nearest with halves up, at the venue's best price.
/// Venues whose part is nothing are left out. Depth is that of the asks for a buyer and of the
/// bids for a seller.
pub proof fn split_follows_depth(
    entries: Seq<VenueBookView>,
    symbol: SymbolView,
    side: Side,
    qty: Qty,
    i: int,
)
    requires
        finite_books(entries),
        0 <= i < routed(entries, symbol, side, qty, RoutingAlgo::VWAP).len(),
    ensures
        ({
            let slice = routed(entries, symbol, side, qty, RoutingAlgo::VWAP)[i];
            let whole = all_offered(entries, symbol.pair(), side) as int;
            &&& slice.symbol == symbol && slice.side == side && slice.qty.0 > 0
            &&& slice.order_type == OrderType::Limit
            &&& slice.time_in_force == TimeInForce::ImmediateOrCancel
            &&& exists|k: int|
                #![trigger entries[k]]
                {
                    let offer = counterpart(entries[k].book, side);
                    &&& 0 <= k < entries.len() && entries[k].pair == symbol.pair()
                    &&& entries[k].venue == slice.venue
                    &&& rounds_to(
                        qty.0 as int,
                        book::depth(offer) as int,
                        whole,
                        slice.qty.0 as int,
                    )
                    &&& offer.contains_key(slice.price.0)
                    &&& forall|p: i64| #[trigger]
                        offer.contains_key(p) ==> if side == Side::Buy {
                            slice.price.0 <= p
                        } else {
                            slice.price.0 >= p
                        }
                }
        }),
{
    let pair = symbol.pair();
    let whole = total_depth(entries, pair, side);
    let slice = routed(entries, symbol, side, qty, RoutingAlgo::VWAP)[i];
    lemma_total_depth(entries, pair, side);
    lemma_proportional(entries, symbol, side, qty, whole);
    let k = choose|k: int|
        #![trigger entries[k]]
        0 <= k < entries.len() && entries[k].quotes(pair, side) && share(
            qty.0 as nat,
            entries[k].depth(side),
            whole,
        ) > 0 && slice == slice_of(
            symbol,
            side,
            entries[k].venue,
            entries[k].quote(side)->Some_0.price,
            Qty(share(qty.0 as nat, entries[k].depth(side), whole) as u64),
        );
    let offer = counterpart(entries[k].book, side);
    lemma_rounds_to(qty.0 as nat, entries[k].depth(side), whole);
    lemma_total_depth_take(entries, k + 1, pair, side);
    lemma_share_bound(qty.0 as nat, entries[k].depth(side), whole);
    book::best_prices(entries[k].book, 0);
    assert forall|p: i64| #[trigger] offer.contains_key(p) implies if side == Side::Buy {
        slice.price.0 <= p
    } else {
        slice.price.0 >= p
    } by {
        book::best_prices(entries[k].book, p);
    }
    assert(entries[k].venue == slice.venue);
}

/// A venue whose part of a split is at least a half gets a slice.
pub proof fn split_reaches_deep_venues(
    entries: Seq<VenueBookView>,
    symbol: SymbolView,
    side: Side,
    qty: Qty,
    k: int,
)
    requires
        finite_books(entries),
        0 <= k < entries.len(),
        entries[k].pair == symbol.pair(),
        ({
            let offer = counterpart(entries[k].book, side);
            let whole = all_offered(entries, symbol.pair(), side);
            offer.len() > 0 && whole > 0 && 2 * (qty.0 * book::depth(offer)) >= whole
        }),
    ensures
        exists|i: int|
            0 <= i < routed(entries, symbol, side, qty, RoutingAlgo::VWAP).len() && (
            #[trigger] routed(entries, symbol, side, qty, RoutingAlgo::VWAP)[i]).venue
                == entries[k].venue,
{
    let pair = symbol.pair();
    let whole = total_depth(entries, pair, side);
    let slices = routed(entries, symbol, side, qty, RoutingAlgo::VWAP);
    lemma_total_depth(entries, pair, side);
    lemma_proportional(entries, symbol, side, qty, whole);
    let part = share(qty.0 as nat, entries[k].depth(side), whole);
    lemma_rounds_to(qty.0 as nat, entries[k].depth(side), whole);
    if part == 0 {
        assert(whole as int * 0 == 0);
    }
    let s = slice_of(
        symbol,
        side,
        entries[k].venue,
        entries[k].quote(side)->Some_0.price,
        Qty(part as u64),
    );
    assert(slices.contains(s));
    let i = choose|i: int| 0 <= i < slices.len() && slices[i] == s;
    assert(slices[i].venue == entries[k].venue);
}

/// After a book was put in it stands for its pair and venue; the books of other pairs and venues
/// stay as they were, in the order in which they were, and no other is there.
pub proof fn books_are_replaced(entries: Seq<VenueBookView>, entry: VenueBookView)
    requires
        distinct_books(entries),
    ensures
        ({
            let after = with_book(entries, entry);
            &&& after.contains(entry)
            &&& entries.len() <= after.len() <= entries.len() + 1
            &&& after.len() == entries.len() + 1 <==> forall|k: int|
                0 <= k < entries.len() ==> (#[trigger] entries[k]).pair != entry.pair
                    || entries[k].venue != entry.venue
            &&& forall|k: int|
                0 <= k < entries.len() ==> if (#[trigger] entries[k]).pair == entry.pair
                    && entries[k].venue == entry.venue {
                    after[k] == entry
                } else {
                    after[k] == entries[k]
                }
            &&& after.len() == entries.len() + 1 ==> after.last() == entry
        }),
{
    if exists|i: int|
        0 <= i < entries.len() && (#[trigger] entries[i]).pair == entry.pair && entries[i].venue
            == entry.venue {
        let i = choose|i: int|
            0 <= i < entries.len() && (#[trigger] entries[i]).pair == entry.pair
                && entries[i].venue == entry.venue;
        assert forall|k: int| 0 <= k < i implies !((#[trigger] entries[k]).pair == entry.pair
            && entries[k].venue == entry.venue) by {
            assert(entries[k].pair != entries[i].pair || entries[k].venue != entries[i].venue);
        }
        lemma_with_book(entries, entry, i);
        assert(entries.update(i, entry)[i] == entry);
        assert forall|k: int| 0 <= k < entries.len() && k != i implies (
        #[trigger] entries[k]).pair != entry.pair || entries[k].venue != entry.venue by {
            if k < i {
                assert(entries[k].pair != entries[i].pair || entries[k].venue != entries[i].venue);
            } else {
                assert(entries[i].pair != entries[k].pair || entries[i].venue != entries[k].venue);
            }
        }
    } else {
        lemma_with_book(entries, entry, entries.len() as int);
        assert(entries.push(entry).last() == entry);
    }
}

impl Default for SmartOrderRouter {
    fn default() -> (r: Self)
        ensures
            r.wf(),
            r.entries() == Seq::<VenueBookView>::empty(),
    {
        Self::new()
    }
}

} // verus!
