//! Strategies and the engine that feeds them.
use vstd::prelude::*;

use crate::book::{OrderBook, OrderBookView};
use crate::event::{Event, EventView};
use crate::text;
use crate::types::{
    OrderId, OrderType, Position, PositionView, Price, Qty, Side, Symbol, SymbolView, TimeInForce,
    Venue,
};

verus! {

/// What a strategy asks for.
#[allow(inconsistent_fields)]
#[derive(Debug)]
pub enum StrategyCommand {
    PlaceOrder {
        symbol: Symbol,
        side: Side,
        order_type: OrderType,
        price: Price,
        qty: Qty,
        time_in_force: TimeInForce,
        venue: Venue,
    },
    CancelOrder { order_id: OrderId },
    CancelAll { symbol: Option<Symbol> },
}

/// The contents of a [`StrategyCommand`].
#[allow(inconsistent_fields)]
#[verifier::ext_equal]
pub enum StrategyCommandView {
    PlaceOrder {
        symbol: SymbolView,
        side: Side,
        order_type: OrderType,
        price: Price,
        qty: Qty,
        time_in_force: TimeInForce,
        venue: Venue,
    },
    CancelOrder { order_id: Seq<char> },
    CancelAll { symbol: Option<SymbolView> },
}

impl View for StrategyCommand {
    type V = StrategyCommandView;

    open spec fn view(&self) -> StrategyCommandView {
        match self {
            StrategyCommand::PlaceOrder {
                symbol,
                side,
                order_type,
                price,
                qty,
                time_in_force,
                venue,
            } => StrategyCommandView::PlaceOrder {
                symbol: symbol@,
                side: *side,
                order_type: *order_type,
                price: *price,
                qty: *qty,
                time_in_force: *time_in_force,
                venue: *venue,
            },
            StrategyCommand::CancelOrder { order_id } => StrategyCommandView::CancelOrder {
                order_id: order_id@,
            },
            StrategyCommand::CancelAll { symbol } => StrategyCommandView::CancelAll {
                symbol: match symbol {
                    Some(s) => Some(s@),
                    None => None,
                },
            },
        }
    }
}

impl DeepView for StrategyCommand {
    type V = StrategyCommandView;

    open spec fn deep_view(&self) -> StrategyCommandView {
        self@
    }
}

impl Clone for StrategyCommand {
    fn clone(&self) -> (r: Self)
        ensures
            r@ == self@,
    {
        match self {
            StrategyCommand::PlaceOrder {
                symbol,
                side,
                order_type,
                price,
                qty,
                time_in_force,
                venue,
            } => StrategyCommand::PlaceOrder {
                symbol: symbol.clone(),
                side: *side,
                order_type: *order_type,
                price: *price,
                qty: *qty,
                time_in_force: *time_in_force,
                venue: *venue,
            },
            StrategyCommand::CancelOrder { order_id } => StrategyCommand::CancelOrder {
                order_id: order_id.clone(),
            },
            StrategyCommand::CancelAll { symbol } => StrategyCommand::CancelAll {
                symbol: match symbol {
                    Some(s) => Some(s.clone()),
                    None => None,
                },
            },
        }
    }
}

/// Values by text key, the last one put in under a key counting.
pub struct Table<T> {
    keys: Vec<String>,
    values: Vec<T>,
}

/// The values of two parallel lists by key.
pub open spec fn table_map<V>(keys: Seq<Seq<char>>, values: Seq<V>) -> Map<Seq<char>, V>
    decreases keys.len(),
{
    if keys.len() == 0 || values.len() == 0 {
        Map::empty()
    } else {
        table_map(keys.drop_last(), values.drop_last()).insert(keys.last(), values.last())
    }
}

/// What the map of two parallel lists holds, where no key is repeated.
proof fn lemma_table_map<V>(keys: Seq<Seq<char>>, values: Seq<V>)
    requires
        keys.no_duplicates(),
        keys.len() == values.len(),
    ensures
        forall|i: int|
            0 <= i < keys.len() ==> table_map(keys, values).contains_key(#[trigger] keys[i])
                && table_map(keys, values)[keys[i]] == values[i],
        forall|k: Seq<char>| #[trigger]
            table_map(keys, values).contains_key(k) ==> keys.contains(k),
    decreases keys.len(),
{
    if keys.len() > 0 {
        let front = keys.drop_last();
        let rest = values.drop_last();
        lemma_table_map(front, rest);
        assert forall|i: int| 0 <= i < keys.len() implies table_map(keys, values).contains_key(
            #[trigger] keys[i],
        ) && table_map(keys, values)[keys[i]] == values[i] by {
            if i < front.len() {
                assert(front[i] == keys[i]);
                assert(keys[i] != keys[keys.len() - 1]);
            }
        }
        assert forall|k: Seq<char>| #[trigger]
            table_map(keys, values).contains_key(k) implies keys.contains(k) by {
            if k == keys.last() {
                assert(keys[keys.len() - 1] == k);
            } else {
                assert(table_map(front, rest).contains_key(k));
                let i = choose|i: int| 0 <= i < front.len() && front[i] == k;
                assert(keys[i] == k);
            }
        }
    }
}

impl<T: View> Table<T> {
    /// The values by key.
    pub closed spec fn map(&self) -> Map<Seq<char>, T::V> {
        table_map(self.keys.deep_view(), self.values@.map_values(|v: T| v@))
    }

    /// Each key stands once, with a value.
    pub closed spec fn wf(&self) -> bool {
        &&& self.keys.deep_view().no_duplicates()
        &&& self.keys@.len() == self.values@.len()
    }

    /// An empty table.
    pub fn new() -> (r: Self)
        ensures
            r.wf(),
            r.map() == Map::<Seq<char>, T::V>::empty(),
    {
        Table { keys: Vec::new(), values: Vec::new() }
    }

    /// Where a key stands.
    fn find(&self, key: &str) -> (r: Option<usize>)
        requires
            self.wf(),
        ensures
            match r {
                Some(i) => i < self.keys@.len() && self.keys@[i as int]@ == key@,
                None => !self.keys.deep_view().contains(key@),
            },
    {
        let ghost s = self.keys.deep_view();
        let mut i: usize = 0;
        while i < self.keys.len()
            invariant
                s == self.keys.deep_view(),
                i <= self.keys@.len(),
                forall|k: int| 0 <= k < i ==> #[trigger] s[k] != key@,
            decreases self.keys.len() - i,
        {
            assert(s[i as int] == self.keys@[i as int]@);
            if text::is_same(self.keys[i].as_str(), key) {
                return Some(i);
            }
            i += 1;
        }
        None
    }

    /// Puts a value in, replacing an earlier one under the same key.
    pub fn insert(&mut self, key: String, value: T)
        requires
            old(self).wf(),
        ensures
            final(self).wf(),
            final(self).map() == old(self).map().insert(key@, value@),
    {
        let ghost k0 = self.keys.deep_view();
        let ghost v0 = self.values@.map_values(|v: T| v@);
        let ghost before = self.map();
        let ghost kv = key@;
        let ghost vv = value@;
        proof {
            lemma_table_map(k0, v0);
        }
        match self.find(key.as_str()) {
            Some(i) => {
                self.values.set(i, value);
                proof {
                    let v1 = v0.update(i as int, vv);
                    assert(self.values@.map_values(|v: T| v@) =~= v1);
                    assert(k0[i as int] == kv);
                    lemma_table_map(k0, v1);
                    assert forall|k: Seq<char>| #[trigger]
                        table_map(k0, v1).contains_key(k) == before.insert(kv, vv).contains_key(
                            k,
                        ) by {
                        if before.contains_key(k) || table_map(k0, v1).contains_key(k) {
                            let j = choose|j: int| 0 <= j < k0.len() && k0[j] == k;
                            assert(table_map(k0, v1).contains_key(k0[j]));
                        }
                    }
                    assert forall|k: Seq<char>|
                        table_map(k0, v1).contains_key(k) implies #[trigger] table_map(
                        k0,
                        v1,
                    )[k] == before.insert(kv, vv)[k] by {
                        let j = choose|j: int| 0 <= j < k0.len() && k0[j] == k;
                        assert(table_map(k0, v1)[k0[j]] == v1[j]);
                        if j != i {
                            assert(k0[j] != k0[i as int]);
                        }
                    }
                    assert(self.map() =~= before.insert(kv, vv));
                }
            },
            None => {
                self.keys.push(key);
                self.values.push(value);
                proof {
                    assert(self.keys.deep_view() =~= k0.push(kv));
                    assert(self.values@.map_values(|v: T| v@) =~= v0.push(vv));
                    assert(k0.push(kv).drop_last() =~= k0);
                    assert(v0.push(vv).drop_last() =~= v0);
                    assert forall|a: int, b: int|
                        0 <= a < k0.push(kv).len() && 0 <= b < k0.push(kv).len() && a
                            != b implies k0.push(kv)[a] != k0.push(kv)[b] by {
                        if a < k0.len() {
                            assert(k0.contains(k0[a]));
                        }
                        if b < k0.len() {
                            assert(k0.contains(k0[b]));
                        }
                    }
                }
            },
        }
    }

    /// The value under a key.
    pub fn get(&self, key: &str) -> (r: Option<&T>)
        requires
            self.wf(),
        ensures
            match r {
                Some(value) => self.map().contains_key(key@) && value@ == self.map()[key@],
                None => !self.map().contains_key(key@),
            },
    {
        proof {
            lemma_table_map(self.keys.deep_view(), self.values@.map_values(|v: T| v@));
        }
        match self.find(key) {
            Some(i) => {
                assert(self.keys.deep_view()[i as int] == key@);
                Some(&self.values[i])
            },
            None => None,
        }
    }
}

/// What a strategy can look at when an event comes.
pub struct StrategyContext<'a> {
    pub books: &'a Table<OrderBook>,
    pub positions: &'a Table<Position>,
    pub seq: u64,
    pub timestamp: u64,
}

/// The contents of a [`StrategyContext`].
#[verifier::ext_equal]
pub struct StrategyContextView {
    pub books: Map<Seq<char>, OrderBookView>,
    pub positions: Map<Seq<char>, PositionView>,
    pub seq: u64,
    pub timestamp: u64,
}

impl<'a> View for StrategyContext<'a> {
    type V = StrategyContextView;

    open spec fn view(&self) -> StrategyContextView {
        StrategyContextView {
            books: self.books.map(),
            positions: self.positions.map(),
            seq: self.seq,
            timestamp: self.timestamp,
        }
    }
}

/// A strategy turns events into commands, by a function of its state, the event and the context:
/// the same events give the same commands.
pub trait Strategy: View + Sized + Send {
    /// Whether the strategy can process an event in a state.
    spec fn admits(state: Self::V, event: EventView) -> bool;

    /// The state after an event, and the commands that it gives.
    spec fn reaction(state: Self::V, event: EventView, ctx: StrategyContextView) -> (
        Self::V,
        Seq<StrategyCommandView>,
    );

    /// The state after startup.
    spec fn started(state: Self::V) -> Self::V;

    /// The state after shutdown.
    spec fn stopped(state: Self::V) -> Self::V;

    /// The state in its saved form.
    spec fn saved(state: Self::V) -> Seq<u8>;

    /// The state after loading a saved form.
    spec fn loaded(state: Self::V, data: Seq<u8>) -> Self::V;

    /// Identifier of the strategy.
    fn id(&self) -> &str;

    /// Whether the strategy can process an event now.
    fn can_process(&self, event: &Event) -> (r: bool)
        ensures
            r == Self::admits(self@, event@),
    ;

    /// Called for every sequenced event; returns commands to execute.
    fn on_event(&mut self, event: &Event, ctx: &StrategyContext) -> (r: Vec<StrategyCommand>)
        requires
            Self::admits(old(self)@, event@),
        ensures
            (final(self)@, r.deep_view()) == Self::reaction(old(self)@, event@, ctx@),
    ;

    /// Called on startup.
    fn on_start(&mut self)
        ensures
            final(self)@ == Self::started(old(self)@),
    ;

    /// Called on shutdown.
    fn on_stop(&mut self)
        ensures
            final(self)@ == Self::stopped(old(self)@),
    ;

    /// Saves the state.
    fn snapshot(&self) -> (r: Vec<u8>)
        ensures
            r@ == Self::saved(self@),
    ;

    /// Loads a saved state.
    fn restore(&mut self, data: &[u8])
        ensures
            final(self)@ == Self::loaded(old(self)@, data@),
    ;
}

/// The commands that strategies give for an event, strategy after strategy.
pub open spec fn all_commands<S: Strategy>(
    states: Seq<S::V>,
    event: EventView,
    ctx: StrategyContextView,
) -> Seq<StrategyCommandView>
    decreases states.len(),
{
    if states.len() == 0 {
        Seq::empty()
    } else {
        all_commands::<S>(states.drop_last(), event, ctx) + S::reaction(
            states.last(),
            event,
            ctx,
        ).1
    }
}

/// Feeds events to strategies.
pub struct StrategyEngine<S> {
    strategies: Vec<S>,
    books: Table<OrderBook>,
    positions: Table<Position>,
}

impl<S: Strategy> StrategyEngine<S> {
    /// The states of the strategies, in the order in which they were registered.
    pub closed spec fn states(&self) -> Seq<S::V> {
        self.strategies@.map_values(|s: S| s@)
    }

    /// The books by key.
    pub closed spec fn books(&self) -> Map<Seq<char>, OrderBookView> {
        self.books.map()
    }

    /// The positions by key.
    pub closed spec fn positions(&self) -> Map<Seq<char>, PositionView> {
        self.positions.map()
    }

    /// The tables are well formed.
    pub closed spec fn wf(&self) -> bool {
        self.books.wf() && self.positions.wf()
    }

    /// What strategies can look at when an event comes.
    pub open spec fn context(&self, event: EventView) -> StrategyContextView {
        StrategyContextView {
            books: self.books(),
            positions: self.positions(),
            seq: event.seq,
            timestamp: event.timestamp,
        }
    }

    /// An engine without strategies.
    pub fn new() -> (r: Self)
        ensures
            r.wf(),
            r.states() == Seq::<S::V>::empty(),
            r.books() == Map::<Seq<char>, OrderBookView>::empty(),
            r.positions() == Map::<Seq<char>, PositionView>::empty(),
    {
        let r = StrategyEngine {
            strategies: Vec::new(),
            books: Table::new(),
            positions: Table::new(),
        };
        assert(r.states() =~= Seq::empty());
        r
    }

    /// Adds a strategy.
    pub fn register(&mut self, strategy: S)
        requires
            old(self).wf(),
        ensures
            final(self).wf(),
            final(self).states() == old(self).states().push(strategy@),
            final(self).books() == old(self).books(),
            final(self).positions() == old(self).positions(),
    {
        let ghost before = self.states();
        self.strategies.push(strategy);
        assert(self.states() =~= before.push(strategy@));
    }

    /// Puts in the book under a key.
    pub fn update_book(&mut self, key: String, book: OrderBook)
        requires
            old(self).wf(),
        ensures
            final(self).wf(),
            final(self).books() == old(self).books().insert(key@, book@),
            final(self).states() == old(self).states(),
            final(self).positions() == old(self).positions(),
    {
        self.books.insert(key, book);
    }

    /// Puts in the position under a key.
    pub fn update_position(&mut self, key: String, pos: Position)
        requires
            old(self).wf(),
        ensures
            final(self).wf(),
            final(self).positions() == old(self).positions().insert(key@, pos@),
            final(self).states() == old(self).states(),
            final(self).books() == old(self).books(),
    {
        self.positions.insert(key, pos);
    }

    /// Whether all strategies can process an event now.
    pub fn can_process(&self, event: &Event) -> (r: bool)
        ensures
            r == forall|i: int|
                0 <= i < self.states().len() ==> S::admits(#[trigger] self.states()[i], event@),
    {
        let ghost s = self.states();
        let mut i: usize = 0;
        while i < self.strategies.len()
            invariant
                s == self.states(),
                i <= self.strategies@.len(),
                forall|k: int| 0 <= k < i ==> S::admits(#[trigger] s[k], event@),
            decreases self.strategies.len() - i,
        {
            assert(s[i as int] == self.strategies@[i as int]@);
            if !self.strategies[i].can_process(event) {
                assert(!S::admits(s[i as int], event@));
                return false;
            }
            i += 1;
        }
        true
    }

    /// Feeds an event to all strategies, and returns their commands.
    pub fn process_event(&mut self, event: &Event) -> (r: Vec<StrategyCommand>)
        requires
            old(self).wf(),
            forall|i: int|
                0 <= i < old(self).states().len() ==> S::admits(
                    #[trigger] old(self).states()[i],
                    event@,
                ),
        ensures
            final(self).wf(),
            r.deep_view() == all_commands::<S>(
                old(self).states(),
                event@,
                old(self).context(event@),
            ),
            final(self).states() == old(self).states().map_values(
                |s: S::V| S::reaction(s, event@, old(self).context(event@)).0,
            ),
            final(self).books() == old(self).books(),
            final(self).positions() == old(self).positions(),
    {
        let ghost s = self.states();
        let ghost ctx0 = self.context(event@);
        let mut commands: Vec<StrategyCommand> = Vec::new();
        let mut i: usize = 0;
        let ctx = StrategyContext {
            books: &self.books,
            positions: &self.positions,
            seq: event.seq,
            timestamp: event.timestamp,
        };
        assert(s.take(0) =~= Seq::empty());
        assert(commands.deep_view() =~= Seq::empty());
        while i < self.strategies.len()
            invariant
                i <= self.strategies@.len(),
                self.strategies@.len() == s.len(),
                self.books == old(self).books,
                self.positions == old(self).positions,
                ctx@ == ctx0,
                forall|k: int| 0 <= k < s.len() ==> S::admits(#[trigger] s[k], event@),
                forall|k: int|
                    0 <= k < i ==> (#[trigger] self.strategies@[k])@ == S::reaction(
                        s[k],
                        event@,
                        ctx0,
                    ).0,
                forall|k: int| i <= k < s.len() ==> (#[trigger] self.strategies@[k])@ == s[k],
                commands.deep_view() == all_commands::<S>(s.take(i as int), event@, ctx0),
            decreases self.strategies.len() - i,
        {
            let ghost before = commands.deep_view();
            let mut fresh = self.strategies[i].on_event(event, &ctx);
            let ghost got = fresh.deep_view();
            commands.append(&mut fresh);
            proof {
                assert(commands.deep_view() =~= before + got);
                assert(s.take(i + 1).drop_last() =~= s.take(i as int));
                assert(s.take(i + 1).last() == s[i as int]);
            }
            i += 1;
        }
        assert(s.take(i as int) =~= s);
        assert(self.states() =~= s.map_values(|s: S::V| S::reaction(s, event@, ctx0).0));
        commands
    }

    /// Starts all strategies.
    pub fn start_all(&mut self)
        requires
            old(self).wf(),
        ensures
            final(self).wf(),
            final(self).states() == old(self).states().map_values(|s: S::V| S::started(s)),
            final(self).books() == old(self).books(),
            final(self).positions() == old(self).positions(),
    {
        let ghost s = self.states();
        let mut i: usize = 0;
        while i < self.strategies.len()
            invariant
                i <= self.strategies@.len(),
                self.strategies@.len() == s.len(),
                self.books == old(self).books,
                self.positions == old(self).positions,
                forall|k: int| 0 <= k < i ==> (#[trigger] self.strategies@[k])@ == S::started(s[k]),
                forall|k: int| i <= k < s.len() ==> (#[trigger] self.strategies@[k])@ == s[k],
            decreases self.strategies.len() - i,
        {
            self.strategies[i].on_start();
            i += 1;
        }
        assert(self.states() =~= s.map_values(|s: S::V| S::started(s)));
    }

    /// Stops all strategies.
    pub fn stop_all(&mut self)
        requires
            old(self).wf(),
        ensures
            final(self).wf(),
            final(self).states() == old(self).states().map_values(|s: S::V| S::stopped(s)),
            final(self).books() == old(self).books(),
            final(self).positions() == old(self).positions(),
    {
        let ghost s = self.states();
        let mut i: usize = 0;
        while i < self.strategies.len()
            invariant
                i <= self.strategies@.len(),
                self.strategies@.len() == s.len(),
                self.books == old(self).books,
                self.positions == old(self).positions,
                forall|k: int| 0 <= k < i ==> (#[trigger] self.strategies@[k])@ == S::stopped(s[k]),
                forall|k: int| i <= k < s.len() ==> (#[trigger] self.strategies@[k])@ == s[k],
            decreases self.strategies.len() - i,
        {
            self.strategies[i].on_stop();
            i += 1;
        }
        assert(self.states() =~= s.map_values(|s: S::V| S::stopped(s)));
    }

    /// How many strategies there are.
    pub fn strategy_count(&self) -> (r: usize)
        ensures
            r == self.states().len(),
    {
        self.strategies.len()
    }
}

impl<S: Strategy> Default for StrategyEngine<S> {
    fn default() -> (r: Self)
        ensures
            r.wf(),
            r.states() == Seq::<S::V>::empty(),
            r.books() == Map::<Seq<char>, OrderBookView>::empty(),
            r.positions() == Map::<Seq<char>, PositionView>::empty(),
    {
        Self::new()
    }
}

/// Every strategy is asked, in the order in which they were registered, and what each commands
/// follows what those before it do.
pub proof fn strategies_are_asked_in_order<S: Strategy>(
    states: Seq<S::V>,
    state: S::V,
    event: EventView,
    ctx: StrategyContextView,
)
    ensures
        all_commands::<S>(Seq::empty(), event, ctx).len() == 0,
        all_commands::<S>(states.push(state), event, ctx) == all_commands::<S>(states, event, ctx)
            + S::reaction(state, event, ctx).1,
{
    assert(states.push(state).drop_last() =~= states);
}

} // verus!
