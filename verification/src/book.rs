//! Level-two order book.
use std::collections::BTreeMap;

use vstd::prelude::*;

use crate::num;
use crate::types::{Level, Price, Qty, Side, Symbol, SymbolView};

verus! {

broadcast use {
    vstd::std_specs::btree::group_btree_axioms,
    vstd::laws_cmp::group_laws_cmp,
};

/// Quantity by price.
pub type Levels = Map<i64, Qty>;

/// Whether a list holds the given levels in increasing order of price.
pub open spec fn is_ascending(s: Seq<Level>, m: Levels) -> bool {
    &&& forall|i: int, j: int|
        0 <= i < j < s.len() ==> (#[trigger] s[i]).price.0 < (#[trigger] s[j]).price.0
    &&& forall|i: int|
        0 <= i < s.len() ==> m.contains_key((#[trigger] s[i]).price.0) && m[s[i].price.0]
            == s[i].qty
    &&& forall|p: i64| #[trigger]
        m.contains_key(p) ==> exists|i: int| 0 <= i < s.len() && (#[trigger] s[i]).price.0 == p
}

/// The given levels in increasing order of price.
pub open spec fn ascending(m: Levels) -> Seq<Level> {
    choose|s: Seq<Level>| is_ascending(s, m)
}

/// The given levels in decreasing order of price.
pub open spec fn descending(m: Levels) -> Seq<Level> {
    ascending(m).reverse()
}

/// Levels that are finitely many can be listed in increasing order of price, so
/// [`ascending`] is such a list.
pub proof fn ascending_lists_levels(m: Levels)
    requires
        m.dom().finite(),
    ensures
        is_ascending(ascending(m), m),
    decreases m.dom().len(),
{
    if m.dom().len() == 0 {
        assert(m.dom() =~= Set::empty());
        assert forall|p: i64| !m.contains_key(p) by {
            assert(!m.dom().contains(p));
        }
        assert(is_ascending(Seq::empty(), m));
    } else {
        let top = highest_price(m.dom());
        let m1 = m.remove(top);
        assert(m1.dom() =~= m.dom().remove(top));
        ascending_lists_levels(m1);
        let s1 = ascending(m1);
        let s = s1.push(Level { price: Price(top), qty: m[top] });
        assert forall|p: i64| #[trigger] m.contains_key(p) implies exists|i: int|
            0 <= i < s.len() && (#[trigger] s[i]).price.0 == p by {
            if p == top {
                assert(s[s1.len() as int].price.0 == p);
            } else {
                assert(m1.contains_key(p));
                let k = choose|k: int| 0 <= k < s1.len() && (#[trigger] s1[k]).price.0 == p;
                assert(s[k].price.0 == p);
            }
        }
        assert forall|i: int| 0 <= i < s1.len() implies (#[trigger] s1[i]).price.0 < top by {
            assert(m1.contains_key(s1[i].price.0));
            assert(m.dom().contains(s1[i].price.0));
        }
        assert forall|i: int| 0 <= i < s.len() implies m.contains_key((#[trigger] s[i]).price.0)
            && m[s[i].price.0] == s[i].qty by {
            if i < s1.len() {
                assert(m1.contains_key(s1[i].price.0));
            }
        }
        assert(is_ascending(s, m));
    }
}

/// Finitely many prices have a highest one.
proof fn highest_price(prices: Set<i64>) -> (r: i64)
    requires
        prices.finite(),
        prices.len() > 0,
    ensures
        prices.contains(r),
        forall|p: i64| #[trigger] prices.contains(p) ==> p <= r,
    decreases prices.len(),
{
    let one = prices.choose();
    let rest = prices.remove(one);
    if rest.len() == 0 {
        assert forall|p: i64| #[trigger] prices.contains(p) implies p <= one by {
            assert(!rest.contains(p));
        }
        one
    } else {
        let high = highest_price(rest);
        if one > high {
            assert forall|p: i64| #[trigger] prices.contains(p) implies p <= one by {
                assert(p == one || rest.contains(p));
            }
            one
        } else {
            assert forall|p: i64| #[trigger] prices.contains(p) implies p <= high by {
                assert(p == one || rest.contains(p));
            }
            assert(rest.contains(high));
            high
        }
    }
}

/// There is one way to list levels in increasing order of price.
pub proof fn lemma_ascending_unique(s: Seq<Level>, t: Seq<Level>, m: Levels)
    requires
        is_ascending(s, m),
        is_ascending(t, m),
    ensures
        s == t,
    decreases s.len(),
{
    if s.len() == 0 {
        if t.len() > 0 {
            assert(m.contains_key(t[0].price.0));
        }
        assert(s =~= t);
    } else {
        let a = s.last();
        assert(m.contains_key(s[s.len() - 1].price.0));
        let j = choose|j: int| 0 <= j < t.len() && (#[trigger] t[j]).price.0 == a.price.0;
        let b = t.last();
        assert(m.contains_key(t[t.len() - 1].price.0));
        let i = choose|i: int| 0 <= i < s.len() && (#[trigger] s[i]).price.0 == b.price.0;
        assert(a.price.0 == b.price.0);
        let m1 = m.remove(a.price.0);
        let s1 = s.drop_last();
        let t1 = t.drop_last();
        assert(is_ascending(s1, m1)) by {
            assert forall|p: i64| #[trigger] m1.contains_key(p) implies exists|i: int|
                0 <= i < s1.len() && (#[trigger] s1[i]).price.0 == p by {
                let k = choose|k: int| 0 <= k < s.len() && (#[trigger] s[k]).price.0 == p;
                assert(s1[k].price.0 == p);
            }
        }
        assert(is_ascending(t1, m1)) by {
            assert forall|p: i64| #[trigger] m1.contains_key(p) implies exists|i: int|
                0 <= i < t1.len() && (#[trigger] t1[i]).price.0 == p by {
                let k = choose|k: int| 0 <= k < t.len() && (#[trigger] t[k]).price.0 == p;
                assert(t1[k].price.0 == p);
            }
        }
        lemma_ascending_unique(s1, t1, m1);
        assert(s =~= s1.push(a));
        assert(t =~= t1.push(b));
    }
}

/// Lists the levels of a side in increasing order of price.
fn levels_of(m: &BTreeMap<i64, Qty>) -> (r: Vec<Level>)
    ensures
        r@ == ascending(m@),
        is_ascending(ascending(m@), m@),
{
    let mut out: Vec<Level> = Vec::new();
    let iter = m.iter();
    let ghost items = vstd::std_specs::iter::IteratorSpec::remaining(&iter);
    for kv in it: iter
        invariant
            it.seq() == items,
            out@.len() == it.index(),
            forall|k: int|
                0 <= k < out@.len() ==> (#[trigger] out@[k]).price.0 == *items[k].0
                    && out@[k].qty == *items[k].1,
    {
        out.push(Level { price: Price(*kv.0), qty: *kv.1 });
    }
    proof {
        let keys = items.map_values(|kv: (&i64, &Qty)| *kv.0);
        assert forall|i: int, j: int| 0 <= i < j < out@.len() implies (#[trigger] out@[i]).price.0
            < (#[trigger] out@[j]).price.0 by {
            assert(vstd::std_specs::btree::increasing_seq(keys));
            assert(keys[i] == out@[i].price.0);
            assert(keys[j] == out@[j].price.0);
            assert(vstd::std_specs::cmp::OrdSpec::cmp_spec(&keys[i], &keys[j]) is Less);
        }
        assert forall|i: int| 0 <= i < out@.len() implies m@.contains_key(
            (#[trigger] out@[i]).price.0,
        ) && m@[out@[i].price.0] == out@[i].qty by {
            assert(m@.contains_key(*items[i].0));
        }
        assert forall|p: i64| #[trigger] m@.contains_key(p) implies exists|i: int|
            0 <= i < out@.len() && (#[trigger] out@[i]).price.0 == p by {
            let q = m@[p];
            assert(items.contains((&p, &q)));
            let i = choose|i: int| 0 <= i < items.len() && items[i] == (&p, &q);
            assert(out@[i].price.0 == p);
        }
        assert(is_ascending(out@, m@));
        lemma_ascending_unique(ascending(m@), out@, m@);
    }
    out
}

/// A side after one level was set: removed where the quantity is zero.
pub open spec fn with_level(m: Levels, level: Level) -> Levels {
    if level.qty.0 == 0 {
        m.remove(level.price.0)
    } else {
        m.insert(level.price.0, level.qty)
    }
}

/// A side after levels were set one after the other.
pub open spec fn with_levels(m: Levels, levels: Seq<Level>) -> Levels
    decreases levels.len(),
{
    if levels.len() == 0 {
        m
    } else {
        with_level(with_levels(m, levels.drop_last()), levels.last())
    }
}

/// A side made of the given levels, those without quantity left out.
pub open spec fn from_levels(levels: Seq<Level>) -> Levels
    decreases levels.len(),
{
    if levels.len() == 0 {
        Map::empty()
    } else if levels.last().qty.0 > 0 {
        from_levels(levels.drop_last()).insert(levels.last().price.0, levels.last().qty)
    } else {
        from_levels(levels.drop_last())
    }
}

/// Setting levels leaves those at other prices as they are.
pub proof fn other_levels_stay(m: Levels, levels: Seq<Level>, price: i64)
    requires
        forall|i: int| 0 <= i < levels.len() ==> (#[trigger] levels[i]).price.0 != price,
    ensures
        with_levels(m, levels).contains_key(price) == m.contains_key(price),
        m.contains_key(price) ==> with_levels(m, levels)[price] == m[price],
    decreases levels.len(),
{
    if levels.len() > 0 {
        other_levels_stay(m, levels.drop_last(), price);
    }
}

/// Whether every level has some quantity.
pub open spec fn all_positive(m: Levels) -> bool {
    forall|p: i64| #[trigger] m.contains_key(p) ==> m[p].0 > 0
}

/// The total quantity of the levels whose price satisfies a condition.
pub open spec fn quantity_where(s: Seq<Level>, p: spec_fn(i64) -> bool) -> nat
    decreases s.len(),
{
    if s.len() == 0 {
        0
    } else {
        quantity_where(s.drop_last(), p) + if p(s.last().price.0) {
            s.last().qty.0 as nat
        } else {
            0
        }
    }
}

/// The total quantity of levels.
pub open spec fn quantity(s: Seq<Level>) -> nat {
    quantity_where(s, |price: i64| true)
}

/// The total quantity of a side.
pub open spec fn depth(m: Levels) -> nat {
    quantity(ascending(m))
}

/// A part of a list has at most the quantity of the whole.
proof fn lemma_quantity_take(s: Seq<Level>, n: int, p: spec_fn(i64) -> bool)
    requires
        0 <= n <= s.len(),
    ensures
        quantity_where(s.take(n), p) <= quantity_where(s, p),
    decreases s.len() - n,
{
    if n == s.len() {
        assert(s.take(n) =~= s);
    } else {
        lemma_quantity_take(s, n + 1, p);
        assert(s.take(n + 1).drop_last() =~= s.take(n));
    }
}

/// How much of a level a fill of `wanted` takes.
pub open spec fn taken(wanted: int, level: Level) -> int {
    num::min(wanted, level.qty.0 as int)
}

/// The cost of filling `wanted` from the front of a list of levels, as far as they reach.
pub open spec fn fill_cost(s: Seq<Level>, wanted: int) -> int
    decreases s.len(),
{
    if s.len() == 0 || wanted <= 0 {
        0
    } else {
        taken(wanted, s[0]) * s[0].price.0 + fill_cost(s.skip(1), wanted - taken(wanted, s[0]))
    }
}

/// What the first `wanted` units of a list of levels cost on average, rounded toward zero,
/// where there are that many.
pub open spec fn average_fill(s: Seq<Level>, wanted: nat) -> Option<(Price, Qty)> {
    if wanted == 0 || quantity(s) < wanted {
        None
    } else {
        Some(
            (
                Price(num::trunc_div(fill_cost(s, wanted as int), wanted as int) as i64),
                Qty(wanted as u64),
            ),
        )
    }
}

/// The contents of an [`OrderBook`].
#[verifier::ext_equal]
pub struct OrderBookView {
    pub symbol: SymbolView,
    pub bids: Levels,
    pub asks: Levels,
    pub last_update_seq: u64,
    pub last_update_ts: u64,
}

impl OrderBookView {
    /// The highest bid.
    pub open spec fn best_bid(self) -> Option<Level> {
        if self.bids.dom().is_empty() {
            None
        } else {
            Some(ascending(self.bids).last())
        }
    }

    /// The lowest ask.
    pub open spec fn best_ask(self) -> Option<Level> {
        if self.asks.dom().is_empty() {
            None
        } else {
            Some(ascending(self.asks)[0])
        }
    }

    /// The levels that an order on a side trades against, best first.
    pub open spec fn opposite(self, side: Side) -> Seq<Level> {
        match side {
            Side::Buy => ascending(self.asks),
            Side::Sell => descending(self.bids),
        }
    }

    /// The middle of the best bid and ask, rounded toward zero, where both exist.
    pub open spec fn mid(self) -> Option<int> {
        match (self.best_bid(), self.best_ask()) {
            (Some(bid), Some(ask)) => Some(num::trunc_div(bid.price.0 + ask.price.0, 2)),
            _ => None,
        }
    }

    /// Best ask minus best bid, where both exist.
    pub open spec fn spread(self) -> Option<int> {
        match (self.best_bid(), self.best_ask()) {
            (Some(bid), Some(ask)) => Some(ask.price.0 - bid.price.0),
            _ => None,
        }
    }

    /// The total quantity of the bids at a price or above.
    pub open spec fn bids_to(self, price: Price) -> nat {
        quantity_where(ascending(self.bids), |p: i64| p >= price.0)
    }

    /// The total quantity of the asks at a price or below.
    pub open spec fn asks_to(self, price: Price) -> nat {
        quantity_where(ascending(self.asks), |p: i64| p <= price.0)
    }

    /// No level is without quantity.
    pub open spec fn wf(self) -> bool {
        all_positive(self.bids) && all_positive(self.asks)
    }
}

/// Order book with sorted price levels. Bids are best at the highest price, asks at the lowest.
#[derive(Debug)]
pub struct OrderBook {
    pub symbol: Symbol,
    bids: BTreeMap<i64, Qty>,
    asks: BTreeMap<i64, Qty>,
    pub last_update_seq: u64,
    pub last_update_ts: u64,
}

impl View for OrderBook {
    type V = OrderBookView;

    closed spec fn view(&self) -> OrderBookView {
        OrderBookView {
            symbol: self.symbol@,
            bids: self.bids@,
            asks: self.asks@,
            last_update_seq: self.last_update_seq,
            last_update_ts: self.last_update_ts,
        }
    }
}

impl Clone for OrderBook {
    fn clone(&self) -> (r: Self)
        ensures
            r@ == self@,
    {
        OrderBook {
            symbol: self.symbol.clone(),
            bids: self.bids.clone(),
            asks: self.asks.clone(),
            last_update_seq: self.last_update_seq,
            last_update_ts: self.last_update_ts,
        }
    }
}

/// Sets levels one after the other, removing those without quantity.
fn set_levels(side: &mut BTreeMap<i64, Qty>, levels: &[Level])
    ensures
        final(side)@ == with_levels(old(side)@, levels@),
        all_positive(old(side)@) ==> all_positive(final(side)@),
{
    let ghost before = side@;
    let mut i: usize = 0;
    assert(levels@.take(0) =~= Seq::empty());
    while i < levels.len()
        invariant
            i <= levels@.len(),
            side@ == with_levels(before, levels@.take(i as int)),
            all_positive(before) ==> all_positive(side@),
        decreases levels.len() - i,
    {
        let level = levels[i];
        assert(levels@.take(i + 1).drop_last() =~= levels@.take(i as int));
        if level.qty.0 == 0 {
            side.remove(&level.price.0);
        } else {
            side.insert(level.price.0, level.qty);
        }
        i += 1;
    }
    assert(levels@.take(i as int) =~= levels@);
}

/// Replaces all levels, leaving out those without quantity.
fn replace_levels(side: &mut BTreeMap<i64, Qty>, levels: &[Level])
    ensures
        final(side)@ == from_levels(levels@),
        all_positive(final(side)@),
{
    side.clear();
    let mut i: usize = 0;
    assert(levels@.take(0) =~= Seq::empty());
    while i < levels.len()
        invariant
            i <= levels@.len(),
            side@ == from_levels(levels@.take(i as int)),
            all_positive(side@),
        decreases levels.len() - i,
    {
        let level = levels[i];
        assert(levels@.take(i + 1).drop_last() =~= levels@.take(i as int));
        if level.qty.0 > 0 {
            side.insert(level.price.0, level.qty);
        }
        i += 1;
    }
    assert(levels@.take(i as int) =~= levels@);
}

/// The total quantity of a list of levels.
fn total_quantity(levels: &Vec<Level>) -> (r: u64)
    requires
        quantity(levels@) <= u64::MAX,
    ensures
        r == quantity(levels@),
{
    let ghost any = |price: i64| true;
    let mut total: u64 = 0;
    let mut i: usize = 0;
    while i < levels.len()
        invariant
            i <= levels@.len(),
            any == (|price: i64| true),
            quantity_where(levels@, any) <= u64::MAX,
            total == quantity_where(levels@.take(i as int), any),
        decreases levels.len() - i,
    {
        proof {
            assert(levels@.take(i + 1).drop_last() =~= levels@.take(i as int));
            lemma_quantity_take(levels@, i + 1, any);
        }
        total = total + levels[i].qty.0;
        i += 1;
    }
    assert(levels@.take(i as int) =~= levels@);
    total
}

/// Fills a quantity from the front of a list of levels.
fn walk(levels: &Vec<Level>, qty: Qty) -> (r: Option<(Price, Qty)>)
    ensures
        r == average_fill(levels@, qty.0 as nat),
{
    let ghost any = |price: i64| true;
    let mut remaining: u64 = qty.0;
    let mut cost: i128 = 0;
    let mut i: usize = 0;
    assert(levels@.skip(0) =~= levels@);
    while i < levels.len() && remaining > 0
        invariant
            i <= levels@.len(),
            remaining <= qty.0,
            any == (|price: i64| true),
            fill_cost(levels@, qty.0 as int) == cost + fill_cost(
                levels@.skip(i as int),
                remaining as int,
            ),
            quantity_where(levels@.take(i as int), any) >= qty.0 - remaining,
            remaining > 0 ==> quantity_where(levels@.take(i as int), any) == qty.0 - remaining,
            (qty.0 - remaining) * i64::MIN <= cost <= (qty.0 - remaining) * i64::MAX,
        decreases levels.len() - i,
    {
        let level = levels[i];
        let fill: u64 = if remaining < level.qty.0 {
            remaining
        } else {
            level.qty.0
        };
        proof {
            assert(levels@.take(i + 1).drop_last() =~= levels@.take(i as int));
            assert(levels@.skip(i as int).skip(1) =~= levels@.skip(i + 1));
            assert(levels@.skip(i as int)[0] == level);
            let done = qty.0 - remaining;
            let p = level.price.0 as int;
            let f = fill as int;
            assert(f * i64::MIN <= f * p <= f * i64::MAX) by (nonlinear_arith)
                requires
                    f >= 0,
                    i64::MIN <= p <= i64::MAX,
            ;
            assert((done + f) * i64::MIN == done * i64::MIN + f * i64::MIN) by (nonlinear_arith);
            assert((done + f) * i64::MAX == done * i64::MAX + f * i64::MAX) by (nonlinear_arith);
            assert((done + f) * i64::MIN >= u64::MAX * i64::MIN) by (nonlinear_arith)
                requires
                    done + f <= u64::MAX,
            ;
            assert((done + f) * i64::MAX <= u64::MAX * i64::MAX) by (nonlinear_arith)
                requires
                    done + f <= u64::MAX,
            ;
            assert(f * i64::MIN >= u64::MAX * i64::MIN) by (nonlinear_arith)
                requires
                    f <= u64::MAX,
            ;
            assert(f * i64::MAX <= u64::MAX * i64::MAX) by (nonlinear_arith)
                requires
                    f <= u64::MAX,
            ;
        }
        cost = cost + fill as i128 * level.price.0 as i128;
        remaining = remaining - fill;
        i += 1;
    }
    proof {
        lemma_quantity_take(levels@, i as int, any);
        if i == levels@.len() {
            assert(levels@.take(i as int) =~= levels@);
        }
    }
    if qty.0 == 0 || remaining > 0 {
        return None;
    }
    let average: i128 = cost / (qty.0 as i128);
    proof {
        let n = qty.0 as int;
        let c = cost as int;
        assert(i64::MIN <= num::trunc_div(c, n) <= i64::MAX) by (nonlinear_arith)
            requires
                n > 0,
                n * i64::MIN <= c <= n * i64::MAX,
        ;
    }
    Some((Price(average as i64), qty))
}

impl OrderBook {
    /// An empty book.
    pub fn new(symbol: Symbol) -> (r: Self)
        ensures
            r@ == (OrderBookView {
                symbol: symbol@,
                bids: Map::empty(),
                asks: Map::empty(),
                last_update_seq: 0,
                last_update_ts: 0,
            }),
            r@.wf(),
    {
        OrderBook {
            symbol,
            bids: BTreeMap::new(),
            asks: BTreeMap::new(),
            last_update_seq: 0,
            last_update_ts: 0,
        }
    }

    /// Replaces all levels.
    pub fn apply_snapshot(&mut self, bids: &[Level], asks: &[Level], seq: u64, ts: u64)
        ensures
            final(self)@ == (OrderBookView {
                symbol: old(self)@.symbol,
                bids: from_levels(bids@),
                asks: from_levels(asks@),
                last_update_seq: seq,
                last_update_ts: ts,
            }),
            final(self)@.wf(),
    {
        replace_levels(&mut self.bids, bids);
        replace_levels(&mut self.asks, asks);
        self.last_update_seq = seq;
        self.last_update_ts = ts;
    }

    /// Sets some levels; one without quantity is removed.
    pub fn apply_delta(&mut self, bids: &[Level], asks: &[Level], seq: u64, ts: u64)
        ensures
            final(self)@ == (OrderBookView {
                symbol: old(self)@.symbol,
                bids: with_levels(old(self)@.bids, bids@),
                asks: with_levels(old(self)@.asks, asks@),
                last_update_seq: seq,
                last_update_ts: ts,
            }),
            old(self)@.wf() ==> final(self)@.wf(),
    {
        set_levels(&mut self.bids, bids);
        set_levels(&mut self.asks, asks);
        self.last_update_seq = seq;
        self.last_update_ts = ts;
    }

    /// The highest bid.
    pub fn best_bid(&self) -> (r: Option<Level>)
        ensures
            r == self@.best_bid(),
            match r {
                Some(level) => self@.bids.contains_key(level.price.0) && self@.bids[level.price.0]
                    == level.qty && forall|p: i64| #[trigger]
                    self@.bids.contains_key(p) ==> p <= level.price.0,
                None => self@.bids == Map::<i64, Qty>::empty(),
            },
    {
        let levels = levels_of(&self.bids);
        if levels.len() == 0 {
            assert(self@.bids =~= Map::empty());
            None
        } else {
            assert(levels@[levels@.len() - 1] == levels@.last());
            assert(!self@.bids.dom().is_empty()) by {
                assert(self@.bids.dom().contains(levels@[0].price.0));
            }
            Some(levels[levels.len() - 1])
        }
    }

    /// The lowest ask.
    pub fn best_ask(&self) -> (r: Option<Level>)
        ensures
            r == self@.best_ask(),
            match r {
                Some(level) => self@.asks.contains_key(level.price.0) && self@.asks[level.price.0]
                    == level.qty && forall|p: i64| #[trigger]
                    self@.asks.contains_key(p) ==> p >= level.price.0,
                None => self@.asks == Map::<i64, Qty>::empty(),
            },
    {
        let levels = levels_of(&self.asks);
        if levels.len() == 0 {
            assert(self@.asks =~= Map::empty());
            None
        } else {
            assert(!self@.asks.dom().is_empty()) by {
                assert(self@.asks.dom().contains(levels@[0].price.0));
            }
            Some(levels[0])
        }
    }

    /// The midpoint of best bid and best ask, where both exist.
    pub fn mid_price(&self) -> (r: Option<Price>)
        ensures
            match (r, self@.mid()) {
                (Some(mid), Some(amount)) => mid.0 == amount,
                (None, None) => true,
                _ => false,
            },
    {
        match (self.best_bid(), self.best_ask()) {
            (Some(bid), Some(ask)) => Some(bid.price.midpoint(ask.price)),
            _ => None,
        }
    }

    /// Best ask minus best bid, where both exist.
    pub fn spread(&self) -> (r: Option<i64>)
        requires
            match (self@.best_bid(), self@.best_ask()) {
                (Some(bid), Some(ask)) => i64::MIN <= ask.price.0 - bid.price.0 <= i64::MAX,
                _ => true,
            },
        ensures
            match (r, self@.spread()) {
                (Some(spread), Some(amount)) => spread == amount,
                (None, None) => true,
                _ => false,
            },
    {
        match (self.best_bid(), self.best_ask()) {
            (Some(bid), Some(ask)) => Some(ask.price.0 - bid.price.0),
            _ => None,
        }
    }

    /// All bids, highest first.
    fn bids_descending(&self) -> (r: Vec<Level>)
        ensures
            r@ == descending(self@.bids),
            is_ascending(ascending(self@.bids), self@.bids),
    {
        let levels = levels_of(&self.bids);
        let count: usize = levels.len();
        let mut out: Vec<Level> = Vec::new();
        let mut i: usize = 0;
        while i < count
            invariant
                i <= count,
                count == levels@.len(),
                out@.len() == i,
                forall|k: int| 0 <= k < i ==> #[trigger] out@[k] == levels@[count - 1 - k],
            decreases count - i,
        {
            out.push(levels[count - 1 - i]);
            i += 1;
        }
        assert(out@ =~= descending(self@.bids));
        out
    }

    /// The `n` highest bids, or all if there are fewer, highest first.
    pub fn top_bids(&self, n: usize) -> (r: Vec<Level>)
        ensures
            is_ascending(ascending(self@.bids), self@.bids),
            r@ == descending(self@.bids).take(
                num::min(n as int, descending(self@.bids).len() as int),
            ),
    {
        let mut levels = self.bids_descending();
        if n < levels.len() {
            levels.truncate(n);
        }
        assert(levels@ =~= descending(self@.bids).take(
            num::min(n as int, descending(self@.bids).len() as int),
        ));
        levels
    }

    /// The `n` lowest asks, or all if there are fewer, lowest first.
    pub fn top_asks(&self, n: usize) -> (r: Vec<Level>)
        ensures
            is_ascending(ascending(self@.asks), self@.asks),
            r@ == ascending(self@.asks).take(num::min(n as int, ascending(self@.asks).len() as int)),
    {
        let mut levels = levels_of(&self.asks);
        if n < levels.len() {
            levels.truncate(n);
        }
        assert(levels@ =~= ascending(self@.asks).take(
            num::min(n as int, ascending(self@.asks).len() as int),
        ));
        levels
    }

    /// The total quantity of the bids.
    pub fn bid_depth(&self) -> (r: u64)
        requires
            depth(self@.bids) <= u64::MAX,
        ensures
            r == depth(self@.bids),
    {
        total_quantity(&levels_of(&self.bids))
    }

    /// The total quantity of the asks.
    pub fn ask_depth(&self) -> (r: u64)
        requires
            depth(self@.asks) <= u64::MAX,
        ensures
            r == depth(self@.asks),
    {
        total_quantity(&levels_of(&self.asks))
    }

    /// The total quantity of the bids at a price or higher.
    pub fn bid_depth_to_price(&self, price: Price) -> (r: u64)
        requires
            self@.bids_to(price) <= u64::MAX,
        ensures
            r == self@.bids_to(price),
    {
        let levels = levels_of(&self.bids);
        let ghost near = |p: i64| p >= price.0;
        let mut total: u64 = 0;
        let mut i: usize = 0;
        while i < levels.len()
            invariant
                i <= levels@.len(),
                near == (|p: i64| p >= price.0),
                quantity_where(levels@, near) <= u64::MAX,
                total == quantity_where(levels@.take(i as int), near),
            decreases levels.len() - i,
        {
            proof {
                assert(levels@.take(i + 1).drop_last() =~= levels@.take(i as int));
                lemma_quantity_take(levels@, i + 1, near);
            }
            if levels[i].price.0 >= price.0 {
                total = total + levels[i].qty.0;
            }
            i += 1;
        }
        assert(levels@.take(i as int) =~= levels@);
        total
    }

    /// The total quantity of the asks at a price or lower.
    pub fn ask_depth_to_price(&self, price: Price) -> (r: u64)
        requires
            self@.asks_to(price) <= u64::MAX,
        ensures
            r == self@.asks_to(price),
    {
        let levels = levels_of(&self.asks);
        let ghost near = |p: i64| p <= price.0;
        let mut total: u64 = 0;
        let mut i: usize = 0;
        while i < levels.len()
            invariant
                i <= levels@.len(),
                near == (|p: i64| p <= price.0),
                quantity_where(levels@, near) <= u64::MAX,
                total == quantity_where(levels@.take(i as int), near),
            decreases levels.len() - i,
        {
            proof {
                assert(levels@.take(i + 1).drop_last() =~= levels@.take(i as int));
                lemma_quantity_take(levels@, i + 1, near);
            }
            if levels[i].price.0 <= price.0 {
                total = total + levels[i].qty.0;
            }
            i += 1;
        }
        assert(levels@.take(i as int) =~= levels@);
        total
    }

    /// Walks the book as a market order would. Gives the average price, rounded toward zero,
    /// and the quantity, or nothing where the book does not hold enough.
    pub fn simulate_fill(&self, side: Side, qty: Qty) -> (r: Option<(Price, Qty)>)
        ensures
            r == average_fill(self@.opposite(side), qty.0 as nat),
    {
        let levels: Vec<Level> = match side {
            Side::Buy => levels_of(&self.asks),
            Side::Sell => self.bids_descending(),
        };
        walk(&levels, qty)
    }

    /// How many bid levels there are.
    pub fn bid_count(&self) -> (r: usize)
        ensures
            r == self@.bids.len(),
    {
        self.bids.len()
    }

    /// How many ask levels there are.
    pub fn ask_count(&self) -> (r: usize)
        ensures
            r == self@.asks.len(),
    {
        self.asks.len()
    }
}

/// A side is listed with every level once, in strictly increasing order of price one way and in
/// strictly decreasing order the other.
pub proof fn sides_are_sorted(m: Levels)
    requires
        m.dom().finite(),
    ensures
        forall|i: int, j: int|
            0 <= i < j < ascending(m).len() ==> (#[trigger] ascending(m)[i]).price.0 < (
            #[trigger] ascending(m)[j]).price.0,
        forall|i: int, j: int|
            0 <= i < j < descending(m).len() ==> (#[trigger] descending(m)[i]).price.0 > (
            #[trigger] descending(m)[j]).price.0,
        ascending(m).len() == m.dom().len(),
        descending(m).len() == m.dom().len(),
        forall|i: int|
            0 <= i < ascending(m).len() ==> m.contains_key((#[trigger] ascending(m)[i]).price.0)
                && m[ascending(m)[i].price.0] == ascending(m)[i].qty,
        forall|i: int|
            0 <= i < descending(m).len() ==> m.contains_key((#[trigger] descending(m)[i]).price.0)
                && m[descending(m)[i].price.0] == descending(m)[i].qty,
{
    ascending_lists_levels(m);
    let s = ascending(m);
    let prices = s.map_values(|l: Level| l.price.0);
    assert(prices.no_duplicates()) by {
        assert forall|i: int, j: int|
            0 <= i < prices.len() && 0 <= j < prices.len() && i != j implies prices[i]
            != prices[j] by {
            if i < j {
                assert(s[i].price.0 < s[j].price.0);
            } else {
                assert(s[j].price.0 < s[i].price.0);
            }
        }
    }
    prices.unique_seq_to_set();
    assert(prices.to_set() =~= m.dom()) by {
        assert forall|p: i64| m.dom().contains(p) implies prices.to_set().contains(p) by {
            assert(m.contains_key(p));
            let i = choose|i: int| 0 <= i < s.len() && (#[trigger] s[i]).price.0 == p;
            assert(prices[i] == p);
        }
        assert forall|p: i64| prices.to_set().contains(p) implies m.dom().contains(p) by {
            let i = choose|i: int| 0 <= i < prices.len() && prices[i] == p;
            assert(s[i].price.0 == p);
        }
    }
}

/// The best bid is the highest price that someone bids, and the best ask the lowest that someone
/// asks, each with the quantity there; a side without levels has none.
pub proof fn best_prices(book: OrderBookView, price: i64)
    requires
        book.bids.dom().finite(),
        book.asks.dom().finite(),
    ensures
        book.bids.contains_key(price) ==> book.best_bid() is Some
            && book.best_bid()->Some_0.price.0 >= price,
        book.asks.contains_key(price) ==> book.best_ask() is Some
            && book.best_ask()->Some_0.price.0 <= price,
        book.best_bid() matches Some(l) ==> book.bids.contains_key(l.price.0)
            && book.bids[l.price.0] == l.qty,
        book.best_ask() matches Some(l) ==> book.asks.contains_key(l.price.0)
            && book.asks[l.price.0] == l.qty,
{
    ascending_lists_levels(book.bids);
    ascending_lists_levels(book.asks);
    let b = ascending(book.bids);
    let a = ascending(book.asks);
    if book.bids.contains_key(price) {
        let i = choose|i: int| 0 <= i < b.len() && (#[trigger] b[i]).price.0 == price;
        assert(b[i].price.0 <= b[b.len() - 1].price.0);
        assert(book.bids.dom().contains(price));
    }
    if book.asks.contains_key(price) {
        let i = choose|i: int| 0 <= i < a.len() && (#[trigger] a[i]).price.0 == price;
        assert(a[0].price.0 <= a[i].price.0);
        assert(book.asks.dom().contains(price));
    }
    if book.best_bid() is Some {
        let p = book.bids.dom().choose();
        assert(book.bids.contains_key(p));
        assert(b[b.len() - 1] == b.last());
    }
    if book.best_ask() is Some {
        let p = book.asks.dom().choose();
        assert(book.asks.contains_key(p));
        assert(a[0] == ascending(book.asks)[0]);
    }
}

/// An order to buy trades against the asks, cheapest first, and one to sell against the bids,
/// dearest first: every level of that side and no other.
pub proof fn orders_meet_the_other_side(book: OrderBookView, side: Side, price: i64)
    requires
        book.bids.dom().finite(),
        book.asks.dom().finite(),
    ensures
        ({
            let s = book.opposite(side);
            let levels = if side == Side::Buy {
                book.asks
            } else {
                book.bids
            };
            &&& forall|i: int, j: int|
                0 <= i < j < s.len() ==> if side == Side::Buy {
                    (#[trigger] s[i]).price.0 < (#[trigger] s[j]).price.0
                } else {
                    s[i].price.0 > s[j].price.0
                }
            &&& forall|i: int|
                0 <= i < s.len() ==> levels.contains_key((#[trigger] s[i]).price.0)
                    && levels[s[i].price.0] == s[i].qty
            &&& levels.contains_key(price) ==> exists|i: int|
                0 <= i < s.len() && (#[trigger] s[i]).price.0 == price
        }),
{
    ascending_lists_levels(book.bids);
    ascending_lists_levels(book.asks);
    let s = book.opposite(side);
    if side == Side::Sell && book.bids.contains_key(price) {
        let b = ascending(book.bids);
        let i = choose|i: int| 0 <= i < b.len() && (#[trigger] b[i]).price.0 == price;
        assert(s[b.len() - 1 - i].price.0 == price);
    }
}

/// Of the levels that are set, the last one at a price decides what stands there: its quantity,
/// or nothing where that is zero.
pub proof fn last_setting_wins(m: Levels, levels: Seq<Level>, i: int)
    requires
        0 <= i < levels.len(),
        forall|j: int| i < j < levels.len() ==> (#[trigger] levels[j]).price != levels[i].price,
    ensures
        ({
            let after = with_levels(m, levels);
            &&& after.contains_key(levels[i].price.0) <==> levels[i].qty.0 > 0
            &&& levels[i].qty.0 > 0 ==> after[levels[i].price.0] == levels[i].qty
        }),
    decreases levels.len(),
{
    if i < levels.len() - 1 {
        let front = levels.drop_last();
        assert(levels[levels.len() - 1].price != levels[i].price);
        assert forall|j: int| i < j < front.len() implies (#[trigger] front[j]).price
            != front[i].price by {
            assert(levels[j].price != levels[i].price);
        }
        last_setting_wins(m, front, i);
        assert(front[i] == levels[i]);
    }
}

/// A side made of levels has a price exactly where one of them with some quantity has it, and
/// the last such level gives the quantity.
pub proof fn snapshots_hold_their_levels(levels: Seq<Level>, price: i64)
    ensures
        from_levels(levels).contains_key(price) <==> exists|i: int|
            0 <= i < levels.len() && (#[trigger] levels[i]).price.0 == price && levels[i].qty.0
                > 0,
        forall|i: int|
            0 <= i < levels.len() && (#[trigger] levels[i]).price.0 == price && levels[i].qty.0
                > 0 && (forall|j: int|
                i < j < levels.len() && (#[trigger] levels[j]).price.0 == price
                    ==> levels[j].qty.0 == 0) ==> from_levels(levels)[price] == levels[i].qty,
    decreases levels.len(),
{
    if levels.len() > 0 {
        let front = levels.drop_last();
        let n = levels.len() - 1;
        snapshots_hold_their_levels(front, price);
        let last = levels[n];
        if from_levels(levels).contains_key(price) {
            if last.price.0 == price && last.qty.0 > 0 {
            } else {
                let i = choose|i: int|
                    0 <= i < front.len() && (#[trigger] front[i]).price.0 == price
                        && front[i].qty.0 > 0;
                assert(levels[i] == front[i]);
            }
        }
        if exists|i: int|
            0 <= i < levels.len() && (#[trigger] levels[i]).price.0 == price && levels[i].qty.0
                > 0 {
            let i = choose|i: int|
                0 <= i < levels.len() && (#[trigger] levels[i]).price.0 == price
                    && levels[i].qty.0 > 0;
            if i < n {
                assert(front[i] == levels[i]);
            }
        }
        assert forall|i: int|
            0 <= i < levels.len() && (#[trigger] levels[i]).price.0 == price && levels[i].qty.0
                > 0 && (forall|j: int|
                i < j < levels.len() && (#[trigger] levels[j]).price.0 == price
                    ==> levels[j].qty.0 == 0) implies from_levels(levels)[price]
            == levels[i].qty by {
            if i < n {
                assert(front[i] == levels[i]);
                assert(levels[n].price.0 == price ==> levels[n].qty.0 == 0);
                assert forall|j: int|
                    i < j < front.len() && (#[trigger] front[j]).price.0 == price implies front[j].qty.0
                    == 0 by {
                    assert(levels[j] == front[j]);
                }
            }
        }
    }
}

/// The quantity of a list is the sum over its levels, and the depth of a side that of the list of
/// its levels.
pub proof fn depth_sums_quantities(s: Seq<Level>, level: Level, m: Levels)
    ensures
        quantity(Seq::empty()) == 0,
        quantity(s.push(level)) == quantity(s) + level.qty.0,
        is_ascending(s, m) ==> depth(m) == quantity(s),
{
    assert(s.push(level).drop_last() =~= s);
    if is_ascending(s, m) {
        assert(is_ascending(ascending(m), m));
        lemma_ascending_unique(s, ascending(m), m);
    }
}

/// The quantity at the prices that satisfy a condition, and that at the others, make up all of it.
pub proof fn depth_splits_by_price(s: Seq<Level>, p: spec_fn(i64) -> bool)
    ensures
        quantity_where(s, p) + quantity_where(s, |price: i64| !p(price)) == quantity(s),
        (forall|i: int| 0 <= i < s.len() ==> p((#[trigger] s[i]).price.0)) ==> quantity_where(s, p)
            == quantity(s),
        (forall|i: int| 0 <= i < s.len() ==> !p((#[trigger] s[i]).price.0)) ==> quantity_where(s, p)
            == 0,
    decreases s.len(),
{
    if s.len() > 0 {
        let front = s.drop_last();
        depth_splits_by_price(front, p);
        assert(s[s.len() - 1] == s.last());
        assert forall|i: int| 0 <= i < front.len() implies (#[trigger] front[i]) == s[i] by {}
    }
}

/// What a fill costs, level by level: as long as the first level lasts its price for each unit,
/// and beyond it the rest of the fill from the levels behind.
pub proof fn fills_take_the_best_first(s: Seq<Level>, wanted: nat)
    requires
        s.len() > 0,
    ensures
        wanted <= s[0].qty.0 ==> fill_cost(s, wanted as int) == wanted * s[0].price.0,
        fill_cost(s, s[0].qty.0 + wanted) == s[0].qty.0 * s[0].price.0 + fill_cost(
            s.skip(1),
            wanted as int,
        ),
{
    reveal_with_fuel(fill_cost, 2);
    assert(0 * s[0].price.0 == 0);
}

/// Whether a list goes from the best price to the worst for an order on a side.
pub open spec fn worsens(s: Seq<Level>, side: Side) -> bool {
    forall|i: int, j: int|
        0 <= i < j < s.len() ==> if side == Side::Buy {
            (#[trigger] s[i]).price.0 <= (#[trigger] s[j]).price.0
        } else {
            s[i].price.0 >= s[j].price.0
        }
}

/// A quantity that the levels hold costs no less than at the best price and no more than at the
/// worst to buy, and the other way round to sell.
proof fn lemma_fill_cost(s: Seq<Level>, side: Side, wanted: nat)
    requires
        worsens(s, side),
        s.len() > 0,
        wanted <= quantity(s),
    ensures
        side == Side::Buy ==> wanted * s[0].price.0 <= fill_cost(s, wanted as int) <= wanted
            * s.last().price.0,
        side == Side::Sell ==> wanted * s.last().price.0 <= fill_cost(s, wanted as int) <= wanted
            * s[0].price.0,
    decreases s.len(),
{
    let first = s[0];
    let t = taken(wanted as int, first);
    let rest = s.skip(1);
    let left = (wanted - t) as nat;
    let p = first.price.0 as int;
    let z = s.last().price.0 as int;
    lemma_quantity_front(s);
    if wanted == 0 {
        assert(0 * p == 0);
        assert(0 * z == 0);
    } else if rest.len() == 0 {
        reveal_with_fuel(fill_cost, 2);
        reveal_with_fuel(quantity_where, 2);
        assert(quantity(rest) == 0);
        assert(t == wanted);
        assert(s.last() == first);
    } else {
        assert(worsens(rest, side)) by {
            assert forall|i: int, j: int| 0 <= i < j < rest.len() implies if side == Side::Buy {
                (#[trigger] rest[i]).price.0 <= (#[trigger] rest[j]).price.0
            } else {
                rest[i].price.0 >= rest[j].price.0
            } by {
                assert(rest[i] == s[i + 1] && rest[j] == s[j + 1]);
            }
        }
        lemma_fill_cost(rest, side, left);
        let c = fill_cost(rest, left as int);
        let a = rest[0].price.0 as int;
        let n = wanted as int;
        assert(rest[0] == s[1]);
        assert(rest.last() == s.last());
        assert(s[0].price.0 <= s[1].price.0 || side == Side::Sell);
        assert(s[0].price.0 >= s[1].price.0 || side == Side::Buy);
        assert(s[s.len() - 1] == s.last());
        if side == Side::Buy {
            assert(p <= z);
            assert(n * p <= t * p + c <= n * z) by (nonlinear_arith)
                requires
                    0 <= t <= n,
                    p <= a,
                    p <= z,
                    (n - t) * a <= c <= (n - t) * z,
            {
                assert((n - t) * p <= (n - t) * a);
                assert(n * p == t * p + (n - t) * p);
                assert(n * z == t * z + (n - t) * z);
                assert(t * p <= t * z);
            }
        } else {
            assert(p >= z);
            assert(n * z <= t * p + c <= n * p) by (nonlinear_arith)
                requires
                    0 <= t <= n,
                    p >= a,
                    p >= z,
                    (n - t) * z <= c <= (n - t) * a,
            {
                assert((n - t) * p >= (n - t) * a);
                assert(n * p == t * p + (n - t) * p);
                assert(n * z == t * z + (n - t) * z);
                assert(t * p >= t * z);
            }
        }
    }
}

/// The quantity of a list is that of its first level and of the levels behind.
proof fn lemma_quantity_front(s: Seq<Level>)
    requires
        s.len() > 0,
    ensures
        quantity(s) == s[0].qty.0 + quantity(s.skip(1)),
    decreases s.len(),
{
    reveal_with_fuel(quantity_where, 2);
    if s.len() > 1 {
        lemma_quantity_front(s.drop_last());
        assert(s.drop_last().skip(1) =~= s.skip(1).drop_last());
        assert(s.skip(1).last() == s.last());
    } else {
        assert(s.drop_last() =~= Seq::empty());
        assert(s.skip(1) =~= Seq::empty());
    }
}

/// A fill succeeds exactly where something is wanted and the side has that much. It is for all
/// that was wanted, at an average price from the best to the worst level: the cost divided by the
/// quantity, cut toward zero.
pub proof fn fills_average_the_cost(book: OrderBookView, side: Side, wanted: u64)
    requires
        book.bids.dom().finite(),
        book.asks.dom().finite(),
    ensures
        ({
            let s = book.opposite(side);
            let cost = fill_cost(s, wanted as int);
            match average_fill(s, wanted as nat) {
                None => wanted == 0 || quantity(s) < wanted,
                Some((price, qty)) => {
                    &&& 0 < wanted <= quantity(s) && s.len() > 0
                    &&& qty.0 == wanted
                    &&& num::abs(price.0 * wanted) <= num::abs(cost) < num::abs(price.0 * wanted)
                        + wanted
                    &&& side == Side::Buy ==> s[0].price.0 <= price.0 <= s.last().price.0
                    &&& side == Side::Sell ==> s.last().price.0 <= price.0 <= s[0].price.0
                },
            }
        }),
{
    let s = book.opposite(side);
    let n = wanted as int;
    if average_fill(s, wanted as nat) is Some {
        if s.len() == 0 {
            assert(quantity(s) == 0);
        }
        orders_meet_the_other_side(book, side, 0);
        assert(worsens(s, side));
        lemma_fill_cost(s, side, wanted as nat);
        let cost = fill_cost(s, n);
        let low = if side == Side::Buy {
            s[0].price.0 as int
        } else {
            s.last().price.0 as int
        };
        let high = if side == Side::Buy {
            s.last().price.0 as int
        } else {
            s[0].price.0 as int
        };
        lemma_average_between(cost, n, low, high);
        num::division_cuts_toward_zero(cost, n);
    }
}

/// A total between a low and a high price for each unit has its average between them.
proof fn lemma_average_between(cost: int, n: int, low: int, high: int)
    requires
        n > 0,
        n * low <= cost <= n * high,
    ensures
        low <= num::trunc_div(cost, n) <= high,
{
    let q = num::trunc_div(cost, n);
    if cost >= 0 {
        assert(low <= cost / n <= high) by (nonlinear_arith)
            requires
                n > 0,
                cost >= 0,
                n * low <= cost <= n * high,
        ;
    } else {
        assert(low <= -((-cost) / n) <= high) by (nonlinear_arith)
            requires
                n > 0,
                cost < 0,
                n * low <= cost <= n * high,
        ;
    }
}

/// The middle lies between the best bid and the best ask where they do not cross, as far from the
/// one as from the other but for rounding, and the spread is their distance. A book that lacks a
/// side has neither.
pub proof fn middle_and_spread(book: OrderBookView)
    ensures
        match (book.best_bid(), book.best_ask()) {
            (Some(bid), Some(ask)) => {
                &&& book.mid() is Some && book.spread() is Some
                &&& bid.price.0 + book.spread()->Some_0 == ask.price.0
                &&& -1 <= bid.price.0 + ask.price.0 - 2 * book.mid()->Some_0 <= 1
                &&& bid.price.0 <= ask.price.0 ==> bid.price.0 <= book.mid()->Some_0
                    <= ask.price.0
            },
            _ => book.mid() is None && book.spread() is None,
        },
{
}

/// The quantity of the levels that satisfy a condition, with one more that satisfies it just where
/// a wider one does not.
proof fn lemma_quantity_at(
    s: Seq<Level>,
    narrow: spec_fn(i64) -> bool,
    wide: spec_fn(i64) -> bool,
    i: int,
)
    requires
        0 <= i < s.len(),
        forall|j: int| 0 <= j < s.len() && j != i ==> narrow((#[trigger] s[j]).price.0) == wide(
            s[j].price.0,
        ),
        !narrow(s[i].price.0),
        wide(s[i].price.0),
    ensures
        quantity_where(s, wide) == quantity_where(s, narrow) + s[i].qty.0,
    decreases s.len(),
{
    let front = s.drop_last();
    let last = s.len() - 1;
    assert(s[last] == s.last());
    assert forall|j: int| 0 <= j < front.len() && j != i implies narrow(
        (#[trigger] front[j]).price.0,
    ) == wide(front[j].price.0) by {
        assert(front[j] == s[j]);
    }
    if i < last {
        lemma_quantity_at(front, narrow, wide, i);
        assert(narrow(s[last].price.0) == wide(s[last].price.0));
    } else {
        lemma_quantity_same(front, narrow, wide);
    }
}

/// Conditions that agree on every level give the same quantity.
proof fn lemma_quantity_same(
    s: Seq<Level>,
    narrow: spec_fn(i64) -> bool,
    wide: spec_fn(i64) -> bool,
)
    requires
        forall|j: int| 0 <= j < s.len() ==> narrow((#[trigger] s[j]).price.0) == wide(
            s[j].price.0,
        ),
    ensures
        quantity_where(s, wide) == quantity_where(s, narrow),
    decreases s.len(),
{
    if s.len() > 0 {
        let front = s.drop_last();
        assert forall|j: int| 0 <= j < front.len() implies narrow((#[trigger] front[j]).price.0)
            == wide(front[j].price.0) by {
            assert(front[j] == s[j]);
        }
        lemma_quantity_same(front, narrow, wide);
        assert(s[s.len() - 1] == s.last());
    }
}

/// The depth up to a price holds the level at that price: going one pipette further adds just the
/// quantity there, on the bids downward and on the asks upward. Beyond the last level it is all
/// that the side has, and before the first it is nothing.
pub proof fn depth_grows_level_by_level(book: OrderBookView, price: i64)
    requires
        book.bids.dom().finite(),
        book.asks.dom().finite(),
        i64::MIN < price < i64::MAX,
    ensures
        book.bids_to(Price(price)) == book.bids_to(Price((price + 1) as i64))
            + if book.bids.contains_key(price) {
            book.bids[price].0 as nat
        } else {
            0
        },
        book.asks_to(Price(price)) == book.asks_to(Price((price - 1) as i64))
            + if book.asks.contains_key(price) {
            book.asks[price].0 as nat
        } else {
            0
        },
        (forall|p: i64| #[trigger] book.bids.contains_key(p) ==> p >= price) ==> book.bids_to(
            Price(price),
        ) == depth(book.bids),
        (forall|p: i64| #[trigger] book.asks.contains_key(p) ==> p <= price) ==> book.asks_to(
            Price(price),
        ) == depth(book.asks),
        (forall|p: i64| #[trigger] book.bids.contains_key(p) ==> p < price) ==> book.bids_to(
            Price(price),
        ) == 0,
        (forall|p: i64| #[trigger] book.asks.contains_key(p) ==> p > price) ==> book.asks_to(
            Price(price),
        ) == 0,
{
    ascending_lists_levels(book.bids);
    ascending_lists_levels(book.asks);
    let b = ascending(book.bids);
    let a = ascending(book.asks);
    let above = |p: i64| p >= (price + 1) as i64;
    let from = |p: i64| p >= price;
    let below = |p: i64| p <= (price - 1) as i64;
    let up_to = |p: i64| p <= price;
    if book.bids.contains_key(price) {
        let i = choose|i: int| 0 <= i < b.len() && (#[trigger] b[i]).price.0 == price;
        assert forall|j: int| 0 <= j < b.len() && j != i implies above(
            (#[trigger] b[j]).price.0,
        ) == from(b[j].price.0) by {
            if j < i {
                assert(b[j].price.0 < b[i].price.0);
            } else {
                assert(b[i].price.0 < b[j].price.0);
            }
        }
        lemma_quantity_at(b, above, from, i);
    } else {
        assert forall|j: int| 0 <= j < b.len() implies above((#[trigger] b[j]).price.0) == from(
            b[j].price.0,
        ) by {
            assert(book.bids.contains_key(b[j].price.0));
        }
        lemma_quantity_same(b, above, from);
    }
    if book.asks.contains_key(price) {
        let i = choose|i: int| 0 <= i < a.len() && (#[trigger] a[i]).price.0 == price;
        assert forall|j: int| 0 <= j < a.len() && j != i implies below(
            (#[trigger] a[j]).price.0,
        ) == up_to(a[j].price.0) by {
            if j < i {
                assert(a[j].price.0 < a[i].price.0);
            } else {
                assert(a[i].price.0 < a[j].price.0);
            }
        }
        lemma_quantity_at(a, below, up_to, i);
    } else {
        assert forall|j: int| 0 <= j < a.len() implies below((#[trigger] a[j]).price.0) == up_to(
            a[j].price.0,
        ) by {
            assert(book.asks.contains_key(a[j].price.0));
        }
        lemma_quantity_same(a, below, up_to);
    }
    depth_splits_by_price(b, from);
    depth_splits_by_price(a, up_to);
}

} // verus!
