//! The order state machine.
use vstd::prelude::*;
use vstd::string::*;

use crate::codec;
use crate::codec::Wire;
use crate::event::{Event, EventPayload, EventPayloadView, EventView};
use crate::num;
use crate::snapshot;
use crate::snapshot::{EngineSnapshot, EngineSnapshotView};
use crate::text;
use crate::types;
use crate::types::{
    OrderId, OrderType, Price, Qty, Side, Symbol, SymbolView, TimeInForce, Venue,
};

verus! {

/// Order lifecycle states.
///
/// Valid transitions:
///   New → Ack → PartialFill → Filled
///   New → Ack → Canceled
///   New → Rejected
///   Ack → PartialFill → Canceled
#[derive(Debug, Clone, Copy, PartialEq, Eq, Hash, Structural)]
pub enum OrderState {
    New,
    Ack,
    PartialFill,
    Filled,
    Canceled,
    Rejected,
}

impl OrderState {
    /// Whether the order's life has ended.
    pub open spec fn terminal(self) -> bool {
        self == OrderState::Filled || self == OrderState::Canceled || self == OrderState::Rejected
    }

    /// Whether `next` may follow.
    pub open spec fn allows(self, next: OrderState) -> bool {
        match self {
            OrderState::New => next == OrderState::Ack || next == OrderState::Rejected,
            OrderState::Ack | OrderState::PartialFill => {
                ||| next == OrderState::PartialFill
                ||| next == OrderState::Filled
                ||| next == OrderState::Canceled
            },
            _ => false,
        }
    }

    /// The name of the state.
    pub open spec fn name(self) -> Seq<char> {
        match self {
            OrderState::New => "New"@,
            OrderState::Ack => "Ack"@,
            OrderState::PartialFill => "PartialFill"@,
            OrderState::Filled => "Filled"@,
            OrderState::Canceled => "Canceled"@,
            OrderState::Rejected => "Rejected"@,
        }
    }

    /// Whether the order's life has ended.
    pub fn is_terminal(self) -> (r: bool)
        ensures
            r == self.terminal(),
    {
        match self {
            OrderState::Filled | OrderState::Canceled | OrderState::Rejected => true,
            _ => false,
        }
    }

    /// Whether `next` may follow.
    pub fn can_transition_to(self, next: OrderState) -> (r: bool)
        ensures
            r == self.allows(next),
    {
        match (self, next) {
            (OrderState::New, OrderState::Ack) => true,
            (OrderState::New, OrderState::Rejected) => true,
            (OrderState::Ack, OrderState::PartialFill) => true,
            (OrderState::Ack, OrderState::Filled) => true,
            (OrderState::Ack, OrderState::Canceled) => true,
            (OrderState::PartialFill, OrderState::PartialFill) => true,
            (OrderState::PartialFill, OrderState::Filled) => true,
            (OrderState::PartialFill, OrderState::Canceled) => true,
            _ => false,
        }
    }

    /// The name of the state.
    pub fn as_str(&self) -> (r: &'static str)
        ensures
            r@ == self.name(),
    {
        match self {
            OrderState::New => "New",
            OrderState::Ack => "Ack",
            OrderState::PartialFill => "PartialFill",
            OrderState::Filled => "Filled",
            OrderState::Canceled => "Canceled",
            OrderState::Rejected => "Rejected",
        }
    }
}

/// No transition leaves a terminal state, and every other state has one.
pub proof fn terminal_states_are_final(state: OrderState, next: OrderState)
    ensures
        state.terminal() ==> !state.allows(next),
        !state.terminal() ==> exists|n: OrderState| #[trigger] state.allows(n),
{
    if state == OrderState::New {
        assert(state.allows(OrderState::Ack));
    } else if !state.terminal() {
        assert(state.allows(OrderState::Filled));
    }
}

/// An order that the engine tracks.
#[derive(Debug)]
pub struct LiveOrder {
    pub order_id: OrderId,
    pub exchange_order_id: Option<String>,
    pub symbol: Symbol,
    pub side: Side,
    pub order_type: OrderType,
    pub price: Price,
    pub original_qty: Qty,
    pub filled_qty: Qty,
    pub remaining_qty: Qty,
    pub time_in_force: TimeInForce,
    pub venue: Venue,
    pub state: OrderState,
    pub created_at: u64,
    pub updated_at: u64,
}

/// The contents of a [`LiveOrder`].
#[verifier::ext_equal]
pub struct LiveOrderView {
    pub order_id: Seq<char>,
    pub exchange_order_id: Option<Seq<char>>,
    pub symbol: SymbolView,
    pub side: Side,
    pub order_type: OrderType,
    pub price: Price,
    pub original_qty: Qty,
    pub filled_qty: Qty,
    pub remaining_qty: Qty,
    pub time_in_force: TimeInForce,
    pub venue: Venue,
    pub state: OrderState,
    pub created_at: u64,
    pub updated_at: u64,
}

impl View for LiveOrder {
    type V = LiveOrderView;

    open spec fn view(&self) -> LiveOrderView {
        LiveOrderView {
            order_id: self.order_id@,
            exchange_order_id: self.exchange_order_id.deep_view(),
            symbol: self.symbol@,
            side: self.side,
            order_type: self.order_type,
            price: self.price,
            original_qty: self.original_qty,
            filled_qty: self.filled_qty,
            remaining_qty: self.remaining_qty,
            time_in_force: self.time_in_force,
            venue: self.venue,
            state: self.state,
            created_at: self.created_at,
            updated_at: self.updated_at,
        }
    }
}

impl DeepView for LiveOrder {
    type V = LiveOrderView;

    open spec fn deep_view(&self) -> LiveOrderView {
        self@
    }
}

impl Clone for LiveOrder {
    fn clone(&self) -> (r: Self)
        ensures
            r@ == self@,
    {
        LiveOrder {
            order_id: self.order_id.clone(),
            exchange_order_id: match &self.exchange_order_id {
                Some(id) => Some(id.clone()),
                None => None,
            },
            symbol: self.symbol.clone(),
            side: self.side,
            order_type: self.order_type,
            price: self.price,
            original_qty: self.original_qty,
            filled_qty: self.filled_qty,
            remaining_qty: self.remaining_qty,
            time_in_force: self.time_in_force,
            venue: self.venue,
            state: self.state,
            created_at: self.created_at,
            updated_at: self.updated_at,
        }
    }
}

impl LiveOrderView {
    /// An order that was just created.
    pub open spec fn created(
        order_id: Seq<char>,
        symbol: SymbolView,
        side: Side,
        order_type: OrderType,
        price: Price,
        qty: Qty,
        time_in_force: TimeInForce,
        venue: Venue,
        timestamp: u64,
    ) -> LiveOrderView {
        LiveOrderView {
            order_id,
            exchange_order_id: None,
            symbol,
            side,
            order_type,
            price,
            original_qty: qty,
            filled_qty: Qty(0),
            remaining_qty: qty,
            time_in_force,
            venue,
            state: OrderState::New,
            created_at: timestamp,
            updated_at: timestamp,
        }
    }

    /// Whether the quantities and the state agree: what remains is what was ordered less what
    /// was filled, a filled order holds all of it, and a partly filled one does not.
    pub open spec fn accounted(self) -> bool {
        &&& self.remaining_qty.0 == num::max(self.original_qty.0 - self.filled_qty.0, 0)
        &&& self.state == OrderState::Filled ==> self.filled_qty.0 >= self.original_qty.0
        &&& self.state == OrderState::PartialFill ==> self.filled_qty.0 < self.original_qty.0
        &&& self.state == OrderState::New || self.state == OrderState::Ack || self.state
            == OrderState::Rejected ==> self.filled_qty.0 == 0
    }
}

impl LiveOrder {
    /// An order that was just created.
    pub fn new(
        order_id: OrderId,
        symbol: Symbol,
        side: Side,
        order_type: OrderType,
        price: Price,
        qty: Qty,
        time_in_force: TimeInForce,
        venue: Venue,
        timestamp: u64,
    ) -> (r: Self)
        ensures
            r@ == LiveOrderView::created(
                order_id@,
                symbol@,
                side,
                order_type,
                price,
                qty,
                time_in_force,
                venue,
                timestamp,
            ),
    {
        LiveOrder {
            order_id,
            exchange_order_id: None,
            symbol,
            side,
            order_type,
            price,
            original_qty: qty,
            filled_qty: Qty(0),
            remaining_qty: qty,
            time_in_force,
            venue,
            state: OrderState::New,
            created_at: timestamp,
            updated_at: timestamp,
        }
    }
}

/// Orders by id.
pub type Orders = Map<Seq<char>, LiveOrderView>;

/// The orders of a list by id, a later one replacing an earlier one with the same id.
pub open spec fn orders_map(s: Seq<LiveOrderView>) -> Orders
    decreases s.len(),
{
    if s.len() == 0 {
        Map::empty()
    } else {
        orders_map(s.drop_last()).insert(s.last().order_id, s.last())
    }
}

/// Whether no two orders of a list have the same id.
pub open spec fn unique_ids(s: Seq<LiveOrderView>) -> bool {
    forall|i: int, j: int|
        0 <= i < j < s.len() ==> (#[trigger] s[i]).order_id != (#[trigger] s[j]).order_id
}

/// Whether a list is in strictly increasing order of id.
pub open spec fn increasing_ids(s: Seq<LiveOrderView>) -> bool {
    forall|i: int, j: int|
        0 <= i < j < s.len() ==> text::text_less(
            (#[trigger] s[i]).order_id,
            (#[trigger] s[j]).order_id,
        )
}

/// Whether a list holds the given orders in increasing order of id.
pub open spec fn is_listing(s: Seq<LiveOrderView>, m: Orders) -> bool {
    increasing_ids(s) && orders_map(s) == m
}

/// The given orders in increasing order of id.
pub open spec fn listing(m: Orders) -> Seq<LiveOrderView> {
    choose|s: Seq<LiveOrderView>| is_listing(s, m)
}

/// The orders that satisfy a condition.
pub open spec fn orders_where(m: Orders, p: spec_fn(LiveOrderView) -> bool) -> Orders {
    Map::new(|k: Seq<char>| m.contains_key(k) && p(m[k]), |k: Seq<char>| m[k])
}

/// What the map of a list without repeated ids holds.
pub proof fn lemma_orders_map(s: Seq<LiveOrderView>)
    requires
        unique_ids(s),
    ensures
        forall|i: int|
            0 <= i < s.len() ==> orders_map(s).contains_key((#[trigger] s[i]).order_id)
                && orders_map(s)[s[i].order_id] == s[i],
        forall|k: Seq<char>| #[trigger]
            orders_map(s).contains_key(k) ==> exists|i: int|
                0 <= i < s.len() && (#[trigger] s[i]).order_id == k,
    decreases s.len(),
{
    if s.len() > 0 {
        let front = s.drop_last();
        lemma_orders_map(front);
        assert forall|i: int| 0 <= i < s.len() implies orders_map(s).contains_key(
            (#[trigger] s[i]).order_id,
        ) && orders_map(s)[s[i].order_id] == s[i] by {
            if i < front.len() {
                assert(front[i] == s[i]);
                assert(s[i].order_id != s[s.len() - 1].order_id);
            }
        }
        assert forall|k: Seq<char>| #[trigger] orders_map(s).contains_key(k) implies exists|i: int|
            0 <= i < s.len() && (#[trigger] s[i]).order_id == k by {
            if k == s.last().order_id {
                assert(s[s.len() - 1].order_id == k);
            } else {
                assert(orders_map(front).contains_key(k));
                let i = choose|i: int| 0 <= i < front.len() && (#[trigger] front[i]).order_id == k;
                assert(s[i].order_id == k);
            }
        }
    }
}

/// Appending an order adds it to the map.
proof fn lemma_push(s: Seq<LiveOrderView>, o: LiveOrderView)
    ensures
        orders_map(s.push(o)) == orders_map(s).insert(o.order_id, o),
        unique_ids(s) && !orders_map(s).contains_key(o.order_id) ==> unique_ids(s.push(o)),
{
    assert(s.push(o).drop_last() =~= s);
    if unique_ids(s) && !orders_map(s).contains_key(o.order_id) {
        lemma_orders_map(s);
        assert forall|i: int, j: int| 0 <= i < j < s.push(o).len() implies (#[trigger] s.push(
            o,
        )[i]).order_id != (#[trigger] s.push(o)[j]).order_id by {
            assert(s.push(o)[i] == s[i]);
            if j < s.len() {
                assert(s.push(o)[j] == s[j]);
            }
        }
    }
}

/// Replacing an order by one with the same id replaces it in the map.
proof fn lemma_update(s: Seq<LiveOrderView>, i: int, o: LiveOrderView)
    requires
        unique_ids(s),
        0 <= i < s.len(),
        o.order_id == s[i].order_id,
    ensures
        unique_ids(s.update(i, o)),
        orders_map(s.update(i, o)) == orders_map(s).insert(o.order_id, o),
{
    let t = s.update(i, o);
    assert(unique_ids(t)) by {
        assert forall|a: int, b: int| 0 <= a < b < t.len() implies (#[trigger] t[a]).order_id != (
        #[trigger] t[b]).order_id by {
            assert(s[a].order_id != s[b].order_id);
        }
    }
    lemma_orders_map(s);
    lemma_orders_map(t);
    let m = orders_map(s).insert(o.order_id, o);
    assert forall|k: Seq<char>| #[trigger] orders_map(t).contains_key(k) == m.contains_key(k) by {
        if orders_map(t).contains_key(k) {
            let j = choose|j: int| 0 <= j < t.len() && (#[trigger] t[j]).order_id == k;
            assert(s[j].order_id == k);
        }
        if m.contains_key(k) {
            if k == o.order_id {
                assert(t[i].order_id == k);
            } else {
                let j = choose|j: int| 0 <= j < s.len() && (#[trigger] s[j]).order_id == k;
                assert(t[j].order_id == k);
            }
        }
    }
    assert forall|k: Seq<char>| orders_map(t).contains_key(k) implies #[trigger] orders_map(t)[k]
        == m[k] by {
        let j = choose|j: int| 0 <= j < t.len() && (#[trigger] t[j]).order_id == k;
        if j == i {
            assert(t[j] == o);
        } else {
            assert(t[j] == s[j]);
            assert(s[j].order_id != s[i].order_id);
        }
    }
    assert(orders_map(t) =~= m);
}

/// Inserting an order with a new id anywhere in a list adds it to the map.
proof fn lemma_insert(s: Seq<LiveOrderView>, i: int, o: LiveOrderView)
    requires
        unique_ids(s),
        0 <= i <= s.len(),
        !orders_map(s).contains_key(o.order_id),
    ensures
        unique_ids(s.insert(i, o)),
        orders_map(s.insert(i, o)) == orders_map(s).insert(o.order_id, o),
{
    let t = s.insert(i, o);
    lemma_orders_map(s);
    assert forall|a: int, b: int| 0 <= a < b < t.len() implies (#[trigger] t[a]).order_id != (
    #[trigger] t[b]).order_id by {
        let x = if a < i { a } else { a - 1 };
        let y = if b < i { b } else { b - 1 };
        if a != i {
            assert(t[a] == s[x]);
        }
        if b != i {
            assert(t[b] == s[y]);
        }
    }
    lemma_orders_map(t);
    let m = orders_map(s).insert(o.order_id, o);
    assert forall|k: Seq<char>| #[trigger] orders_map(t).contains_key(k) == m.contains_key(k) by {
        if orders_map(t).contains_key(k) {
            let j = choose|j: int| 0 <= j < t.len() && (#[trigger] t[j]).order_id == k;
            if j < i {
                assert(s[j].order_id == k);
            } else if j > i {
                assert(s[j - 1].order_id == k);
            }
        }
        if m.contains_key(k) {
            if k == o.order_id {
                assert(t[i].order_id == k);
            } else {
                let j = choose|j: int| 0 <= j < s.len() && (#[trigger] s[j]).order_id == k;
                if j < i {
                    assert(t[j].order_id == k);
                } else {
                    assert(t[j + 1].order_id == k);
                }
            }
        }
    }
    assert forall|k: Seq<char>| orders_map(t).contains_key(k) implies #[trigger] orders_map(t)[k]
        == m[k] by {
        let j = choose|j: int| 0 <= j < t.len() && (#[trigger] t[j]).order_id == k;
        if j < i {
            assert(t[j] == s[j]);
        } else if j > i {
            assert(t[j] == s[j - 1]);
        }
    }
    assert(orders_map(t) =~= m);
}

/// A list in increasing order of id has no repeated ids.
proof fn lemma_increasing_unique(s: Seq<LiveOrderView>)
    requires
        increasing_ids(s),
    ensures
        unique_ids(s),
{
    assert forall|i: int, j: int| 0 <= i < j < s.len() implies (#[trigger] s[i]).order_id != (
    #[trigger] s[j]).order_id by {
        text::lemma_text_less_asym(s[i].order_id, s[j].order_id);
    }
}

/// There is one way to list given orders in increasing order of id.
pub proof fn lemma_listing_unique(s: Seq<LiveOrderView>, t: Seq<LiveOrderView>)
    requires
        increasing_ids(s),
        increasing_ids(t),
        orders_map(s) == orders_map(t),
    ensures
        s == t,
    decreases s.len(),
{
    lemma_increasing_unique(s);
    lemma_increasing_unique(t);
    lemma_orders_map(s);
    lemma_orders_map(t);
    let m = orders_map(s);
    if s.len() == 0 {
        if t.len() > 0 {
            assert(m.contains_key(t[0].order_id));
        }
        assert(s =~= t);
    } else {
        let a = s.last();
        assert(m.contains_key(s[s.len() - 1].order_id));
        let j = choose|j: int| 0 <= j < t.len() && (#[trigger] t[j]).order_id == a.order_id;
        let b = t.last();
        assert(m.contains_key(t[t.len() - 1].order_id));
        let i = choose|i: int| 0 <= i < s.len() && (#[trigger] s[i]).order_id == b.order_id;
        if a.order_id != b.order_id {
            assert(text::text_less(t[j].order_id, t[t.len() - 1].order_id));
            assert(text::text_less(s[i].order_id, s[s.len() - 1].order_id));
            text::lemma_text_less_asym(a.order_id, b.order_id);
        }
        assert(a == b);
        let s1 = s.drop_last();
        let t1 = t.drop_last();
        assert(!orders_map(s1).contains_key(a.order_id)) by {
            lemma_increasing_unique(s1);
            lemma_orders_map(s1);
            if orders_map(s1).contains_key(a.order_id) {
                let x = choose|x: int|
                    0 <= x < s1.len() && (#[trigger] s1[x]).order_id == a.order_id;
                assert(s[x].order_id != s[s.len() - 1].order_id);
            }
        }
        assert(!orders_map(t1).contains_key(a.order_id)) by {
            lemma_increasing_unique(t1);
            lemma_orders_map(t1);
            if orders_map(t1).contains_key(a.order_id) {
                let x = choose|x: int|
                    0 <= x < t1.len() && (#[trigger] t1[x]).order_id == a.order_id;
                assert(t[x].order_id != t[t.len() - 1].order_id);
            }
        }
        assert(orders_map(s1) =~= m.remove(a.order_id));
        assert(orders_map(t1) =~= m.remove(a.order_id));
        lemma_listing_unique(s1, t1);
        assert(s =~= s1.push(a));
        assert(t =~= t1.push(b));
    }
}

/// A list in increasing order of id is the listing of its orders.
pub proof fn lemma_is_listing(s: Seq<LiveOrderView>)
    requires
        increasing_ids(s),
    ensures
        listing(orders_map(s)) == s,
{
    assert(is_listing(s, orders_map(s)));
    lemma_listing_unique(listing(orders_map(s)), s);
}

/// The state of an engine.
#[verifier::ext_equal]
pub struct EngineView {
    pub orders: Orders,
    pub next_local_id: u64,
}

/// The error text for an order that is not known.
pub open spec fn not_found() -> Seq<char> {
    "order not found"@
}

/// The error text for a transition that the state machine does not have.
pub open spec fn bad_transition(from: OrderState, to: OrderState) -> Seq<char> {
    "invalid transition: "@ + from.name() + " -> "@ + to.name()
}

impl EngineView {
    /// An engine without orders.
    pub open spec fn empty() -> EngineView {
        EngineView { orders: Map::empty(), next_local_id: 1 }
    }

    /// The state with one order put in or replaced.
    pub open spec fn with(self, order: LiveOrderView) -> EngineView {
        EngineView { orders: self.orders.insert(order.order_id, order), ..self }
    }

    /// Registers an order, unless its id is taken.
    pub open spec fn registered(self, order: LiveOrderView) -> Result<EngineView, Seq<char>> {
        if self.orders.contains_key(order.order_id) {
            Err("order already exists: "@ + order.order_id)
        } else {
            Ok(self.with(order))
        }
    }

    /// Moves a known order to a state, where the state machine has that transition.
    pub open spec fn moved(
        self,
        id: Seq<char>,
        to: OrderState,
        changed: LiveOrderView,
    ) -> Result<EngineView, Seq<char>> {
        if !self.orders.contains_key(id) {
            Err(not_found())
        } else if !self.orders[id].state.allows(to) {
            Err(bad_transition(self.orders[id].state, to))
        } else {
            Ok(self.with(LiveOrderView { state: to, ..changed }))
        }
    }

    /// The exchange accepted an order.
    pub open spec fn acked(self, id: Seq<char>, exchange_id: Seq<char>, ts: u64) -> Result<
        EngineView,
        Seq<char>,
    > {
        self.moved(
            id,
            OrderState::Ack,
            LiveOrderView {
                exchange_order_id: Some(exchange_id),
                updated_at: ts,
                ..self.orders[id]
            },
        )
    }

    /// Whether a fill completes an order.
    pub open spec fn completes(self, id: Seq<char>, qty: Qty) -> bool {
        self.orders[id].filled_qty.0 + qty.0 >= self.orders[id].original_qty.0
    }

    /// An order was filled, in part or in full.
    pub open spec fn filled(self, id: Seq<char>, qty: Qty, ts: u64) -> Result<
        EngineView,
        Seq<char>,
    > {
        let order = self.orders[id];
        let total = order.filled_qty.0 + qty.0;
        self.moved(
            id,
            if self.completes(id, qty) {
                OrderState::Filled
            } else {
                OrderState::PartialFill
            },
            LiveOrderView {
                filled_qty: Qty(total as u64),
                remaining_qty: Qty(num::max(order.original_qty.0 - total, 0) as u64),
                updated_at: ts,
                ..order
            },
        )
    }

    /// An order was cancelled.
    pub open spec fn canceled(self, id: Seq<char>, ts: u64) -> Result<EngineView, Seq<char>> {
        self.moved(
            id,
            OrderState::Canceled,
            LiveOrderView { updated_at: ts, ..self.orders[id] },
        )
    }

    /// An order was refused by the exchange.
    pub open spec fn rejected(self, id: Seq<char>, ts: u64) -> Result<EngineView, Seq<char>> {
        self.moved(
            id,
            OrderState::Rejected,
            LiveOrderView { updated_at: ts, ..self.orders[id] },
        )
    }

    /// The filled quantity stays within 64 bits when an event is applied.
    pub open spec fn fill_fits(self, event: EventView) -> bool {
        match event.payload {
            EventPayloadView::OrderFill(e) | EventPayloadView::OrderPartialFill(e) => {
                self.orders.contains_key(e.order_id) ==> self.orders[e.order_id].filled_qty.0
                    + e.qty.0 <= u64::MAX
            },
            _ => true,
        }
    }

    /// Whether an event is about the life of an order.
    pub open spec fn concerns(event: EventView) -> bool {
        match event.payload {
            EventPayloadView::OrderNew(_)
            | EventPayloadView::OrderAck(_)
            | EventPayloadView::OrderFill(_)
            | EventPayloadView::OrderPartialFill(_)
            | EventPayloadView::OrderCancel(_)
            | EventPayloadView::OrderReject(_) => true,
            _ => false,
        }
    }

    /// The state after an event, or why the event does not apply.
    pub open spec fn applied(self, event: EventView) -> Result<EngineView, Seq<char>> {
        match event.payload {
            EventPayloadView::OrderNew(e) => self.registered(
                LiveOrderView::created(
                    e.order_id,
                    e.symbol,
                    e.side,
                    e.order_type,
                    e.price,
                    e.qty,
                    e.time_in_force,
                    e.venue,
                    event.timestamp,
                ),
            ),
            EventPayloadView::OrderAck(e) => self.acked(
                e.order_id,
                e.exchange_order_id,
                event.timestamp,
            ),
            EventPayloadView::OrderFill(e) | EventPayloadView::OrderPartialFill(e) => self.filled(
                e.order_id,
                e.qty,
                event.timestamp,
            ),
            EventPayloadView::OrderCancel(e) => self.canceled(e.order_id, event.timestamp),
            EventPayloadView::OrderReject(e) => self.rejected(e.order_id, event.timestamp),
            _ => Ok(self),
        }
    }

    /// The state after an event; one that does not apply changes nothing.
    pub open spec fn after(self, event: EventView) -> EngineView {
        match self.applied(event) {
            Ok(next) => next,
            Err(_) => self,
        }
    }

    /// The state after a list of events.
    pub open spec fn replayed(self, events: Seq<EventView>) -> EngineView
        decreases events.len(),
    {
        if events.len() == 0 {
            self
        } else {
            self.replayed(events.drop_last()).after(events.last())
        }
    }

    /// The state without the orders whose life has ended.
    pub open spec fn collected(self) -> EngineView {
        EngineView {
            orders: orders_where(self.orders, |o: LiveOrderView| !o.state.terminal()),
            ..self
        }
    }

    /// The state in its binary form: the orders in increasing order of id, then the next local
    /// id.
    pub open spec fn bytes(self) -> Seq<u8> {
        <(Vec<LiveOrder>, u64)>::enc((listing(self.orders), self.next_local_id))
    }

    /// The state hash.
    pub open spec fn hash(self) -> Seq<u8> {
        snapshot::hash_of(self.bytes())
    }

    /// The state that bytes stand for, if they do.
    pub open spec fn from_bytes(data: Seq<u8>) -> Option<EngineView> {
        match <(Vec<LiveOrder>, u64)>::dec(data) {
            None => None,
            Some(((orders, next_local_id), _)) => Some(
                EngineView { orders: orders_map(orders), next_local_id },
            ),
        }
    }

    /// Whether the lengths in the state's binary form fit their fields, and every order stands
    /// under its own id.
    pub open spec fn encodable(self) -> bool {
        &&& <(Vec<LiveOrder>, u64)>::fits((listing(self.orders), self.next_local_id))
        &&& is_listing(listing(self.orders), self.orders)
    }
}

/// A state that was written to bytes is read back from them, and so has the same hash.
pub proof fn bytes_round_trip(state: EngineView)
    requires
        state.encodable(),
    ensures
        EngineView::from_bytes(state.bytes()) == Some(state),
{
    codec::decode_encode::<(Vec<LiveOrder>, u64)>(
        (listing(state.orders), state.next_local_id),
        Seq::empty(),
    );
}

/// Each kind of order event does what the call for it does: a new order is registered, an
/// acknowledgement, a fill, a cancellation and a rejection move the order. Other events apply and
/// change nothing, and so does an event that fails.
pub proof fn events_act_on_orders(state: EngineView, event: EventView)
    ensures
        state.applied(event) == (match event.payload {
            EventPayloadView::OrderNew(e) => state.registered(
                LiveOrderView::created(
                    e.order_id,
                    e.symbol,
                    e.side,
                    e.order_type,
                    e.price,
                    e.qty,
                    e.time_in_force,
                    e.venue,
                    event.timestamp,
                ),
            ),
            EventPayloadView::OrderAck(e) => state.acked(
                e.order_id,
                e.exchange_order_id,
                event.timestamp,
            ),
            EventPayloadView::OrderFill(e) | EventPayloadView::OrderPartialFill(e) => state.filled(
                e.order_id,
                e.qty,
                event.timestamp,
            ),
            EventPayloadView::OrderCancel(e) => state.canceled(e.order_id, event.timestamp),
            EventPayloadView::OrderReject(e) => state.rejected(e.order_id, event.timestamp),
            _ => Ok(state),
        }),
        match state.applied(event) {
            Ok(next) => state.after(event) == next,
            Err(_) => state.after(event) == state && EngineView::concerns(event),
        },
        !EngineView::concerns(event) ==> state.after(event) == state,
        state.after(event).next_local_id == state.next_local_id,
{
}

/// Replaying two lists one after the other is replaying them joined.
pub proof fn replay_concat(state: EngineView, first: Seq<EventView>, second: Seq<EventView>)
    ensures
        state.replayed(first + second) == state.replayed(first).replayed(second),
    decreases second.len(),
{
    if second.len() == 0 {
        assert(first + second =~= first);
    } else {
        replay_concat(state, first, second.drop_last());
        assert((first + second).drop_last() =~= first + second.drop_last());
        assert((first + second).last() == second.last());
    }
}

/// Restoring the snapshot taken after some events and replaying the rest gives the state, and
/// the state hash, of replaying all of them.
pub proof fn replay_from_snapshot(
    state: EngineView,
    first: Seq<EventView>,
    second: Seq<EventView>,
    restored: EngineView,
)
    requires
        state.replayed(first).encodable(),
        EngineView::from_bytes(state.replayed(first).bytes()) == Some(restored),
    ensures
        restored.replayed(second) == state.replayed(first + second),
        restored.replayed(second).hash() == state.replayed(first + second).hash(),
{
    bytes_round_trip(state.replayed(first));
    replay_concat(state, first, second);
}

/// Whether every order stands under its own id and its quantities and state agree.
pub open spec fn all_accounted(state: EngineView) -> bool {
    forall|k: Seq<char>| #[trigger]
        state.orders.contains_key(k) ==> state.orders[k].order_id == k
            && state.orders[k].accounted()
}

/// An event keeps the quantities and states of all orders in agreement.
pub proof fn events_keep_accounts(state: EngineView, event: EventView)
    requires
        all_accounted(state),
        state.fill_fits(event),
    ensures
        all_accounted(state.after(event)),
{
}

/// No event changes an order whose life has ended, and none removes an order.
pub proof fn terminal_orders_stay(state: EngineView, event: EventView, id: Seq<char>)
    requires
        all_accounted(state),
        state.orders.contains_key(id),
    ensures
        state.after(event).orders.contains_key(id),
        state.orders[id].state.terminal() ==> state.after(event).orders[id] == state.orders[id],
        state.after(event).orders[id].state == state.orders[id].state
            || state.orders[id].state.allows(state.after(event).orders[id].state),
{
}

/// Whether every order stands under its own id.
pub open spec fn stand_under_ids(state: EngineView) -> bool {
    forall|k: Seq<char>| #[trigger]
        state.orders.contains_key(k) ==> state.orders[k].order_id == k
}

/// An event about an order changes no other order, and takes none away.
pub proof fn events_touch_one_order(
    state: EngineView,
    event: EventView,
    id: Seq<char>,
    other: Seq<char>,
)
    requires
        stand_under_ids(state),
        other != id,
        match event.payload {
            EventPayloadView::OrderNew(e) => e.order_id == id,
            EventPayloadView::OrderAck(e) => e.order_id == id,
            EventPayloadView::OrderFill(e) | EventPayloadView::OrderPartialFill(e) => e.order_id
                == id,
            EventPayloadView::OrderCancel(e) => e.order_id == id,
            EventPayloadView::OrderReject(e) => e.order_id == id,
            _ => true,
        },
    ensures
        state.after(event).orders.contains_key(other) == state.orders.contains_key(other),
        state.orders.contains_key(other) ==> state.after(event).orders[other]
            == state.orders[other],
{
}

/// A new order is tracked under its id as it was placed, with nothing filled yet; one whose id
/// is taken is refused and changes nothing.
pub proof fn new_orders_are_tracked(state: EngineView, event: EventView)
    requires
        event.payload is OrderNew,
    ensures
        ({
            let e = event.payload->OrderNew_0;
            let after = state.after(event);
            let o = after.orders[e.order_id];
            if state.orders.contains_key(e.order_id) {
                state.applied(event) is Err && after == state
            } else {
                &&& state.applied(event) is Ok
                &&& after.orders.contains_key(e.order_id)
                &&& o.state == OrderState::New
                &&& o.filled_qty.0 == 0 && o.original_qty == e.qty && o.remaining_qty == e.qty
                &&& o.order_id == e.order_id && o.symbol == e.symbol && o.side == e.side
                &&& o.price == e.price && o.order_type == e.order_type && o.venue == e.venue
                &&& o.time_in_force == e.time_in_force && o.exchange_order_id is None
                &&& o.created_at == event.timestamp && o.updated_at == event.timestamp
            }
        }),
{
}

/// The exchange accepts an order once: a new one gets the exchange's id and is acknowledged, and
/// for any other the event is refused and changes nothing.
pub proof fn new_orders_are_acknowledged(state: EngineView, event: EventView)
    requires
        stand_under_ids(state),
        event.payload is OrderAck,
    ensures
        ({
            let e = event.payload->OrderAck_0;
            let before = state.orders[e.order_id];
            let o = state.after(event).orders[e.order_id];
            if state.orders.contains_key(e.order_id) && before.state == OrderState::New {
                &&& state.applied(event) is Ok
                &&& o.state == OrderState::Ack
                &&& o.exchange_order_id == Some(e.exchange_order_id)
                &&& o.updated_at == event.timestamp && o.created_at == before.created_at
                &&& o.filled_qty == before.filled_qty && o.remaining_qty == before.remaining_qty
                &&& o.original_qty == before.original_qty && o.price == before.price
                &&& o.side == before.side && o.symbol == before.symbol && o.venue == before.venue
            } else {
                state.applied(event) is Err && state.after(event) == state
            }
        }),
{
}

/// A fill adds to what an acknowledged order has filled and takes from what remains. The order
/// is filled once that reaches what was ordered, and filled in part before. A fill for an order
/// that is not known, not acknowledged or ended is refused and changes nothing.
pub proof fn fills_accumulate(state: EngineView, event: EventView)
    requires
        stand_under_ids(state),
        state.fill_fits(event),
        event.payload is OrderFill || event.payload is OrderPartialFill,
    ensures
        ({
            let e = if event.payload is OrderFill {
                event.payload->OrderFill_0
            } else {
                event.payload->OrderPartialFill_0
            };
            let before = state.orders[e.order_id];
            let o = state.after(event).orders[e.order_id];
            if state.orders.contains_key(e.order_id) && (before.state == OrderState::Ack
                || before.state == OrderState::PartialFill) {
                &&& state.applied(event) is Ok
                &&& o.filled_qty.0 == before.filled_qty.0 + e.qty.0
                &&& o.filled_qty.0 <= o.original_qty.0 ==> o.filled_qty.0 + o.remaining_qty.0
                    == before.original_qty.0
                &&& o.filled_qty.0 > o.original_qty.0 ==> o.remaining_qty.0 == 0
                &&& o.state == OrderState::Filled <==> o.remaining_qty.0 == 0
                &&& o.state == OrderState::PartialFill <==> o.remaining_qty.0 > 0
                &&& o.original_qty == before.original_qty && o.price == before.price
                &&& o.side == before.side && o.symbol == before.symbol && o.venue == before.venue
                &&& o.exchange_order_id == before.exchange_order_id
                &&& o.updated_at == event.timestamp && o.created_at == before.created_at
            } else {
                state.applied(event) is Err && state.after(event) == state
            }
        }),
{
}

/// A known order that was acknowledged and has not ended, filled in part or not at all, is
/// cancelled by a cancellation, which keeps what was filled. For any other order the event is
/// refused and changes nothing.
pub proof fn cancellations_end_orders(state: EngineView, event: EventView)
    requires
        stand_under_ids(state),
        event.payload is OrderCancel,
    ensures
        ({
            let e = event.payload->OrderCancel_0;
            let before = state.orders[e.order_id];
            let o = state.after(event).orders[e.order_id];
            if state.orders.contains_key(e.order_id) && (before.state == OrderState::Ack
                || before.state == OrderState::PartialFill) {
                &&& state.applied(event) is Ok
                &&& o.state == OrderState::Canceled
                &&& o.filled_qty == before.filled_qty && o.remaining_qty == before.remaining_qty
                &&& o.original_qty == before.original_qty && o.price == before.price
                &&& o.side == before.side && o.symbol == before.symbol && o.venue == before.venue
                &&& o.exchange_order_id == before.exchange_order_id
                &&& o.updated_at == event.timestamp && o.created_at == before.created_at
            } else {
                state.applied(event) is Err && state.after(event) == state
            }
        }),
{
}

/// The exchange can refuse a new order, which ends it with its quantities as they were; for any
/// other order the event is refused and changes nothing.
pub proof fn rejections_end_new_orders(state: EngineView, event: EventView)
    requires
        stand_under_ids(state),
        event.payload is OrderReject,
    ensures
        ({
            let e = event.payload->OrderReject_0;
            let before = state.orders[e.order_id];
            let o = state.after(event).orders[e.order_id];
            if state.orders.contains_key(e.order_id) && before.state == OrderState::New {
                &&& state.applied(event) is Ok
                &&& o.state == OrderState::Rejected
                &&& o.filled_qty == before.filled_qty && o.remaining_qty == before.remaining_qty
                &&& o.exchange_order_id == before.exchange_order_id
                &&& o.updated_at == event.timestamp && o.created_at == before.created_at
            } else {
                state.applied(event) is Err && state.after(event) == state
            }
        }),
{
}

/// An order is stale from some moment on, once it is acknowledged: not before the timeout has
/// passed since it was last updated, and at every moment after that. New orders and those that
/// have ended never are.
pub proof fn orders_grow_stale(o: LiveOrderView, now_ns: u64, timeout_ns: u64)
    ensures
        o.state == OrderState::Ack || o.state == OrderState::PartialFill ==> (is_stale(
            o,
            now_ns,
            timeout_ns,
        ) <==> o.updated_at + timeout_ns < now_ns),
        o.state == OrderState::New || o.state == OrderState::Filled || o.state
            == OrderState::Canceled || o.state == OrderState::Rejected ==> !is_stale(
            o,
            now_ns,
            timeout_ns,
        ),
{
}

/// Tracks all orders and enforces the state machine.
pub struct ExecutionEngine {
    orders: Vec<LiveOrder>,
    next_local_id: u64,
}

impl View for ExecutionEngine {
    type V = EngineView;

    closed spec fn view(&self) -> EngineView {
        EngineView {
            orders: orders_map(self.orders.deep_view()),
            next_local_id: self.next_local_id,
        }
    }
}

impl ExecutionEngine {
    /// No two orders have the same id.
    pub closed spec fn wf(&self) -> bool {
        unique_ids(self.orders.deep_view())
    }

    /// Each order stands under its own id.
    pub proof fn orders_stand_under_their_ids(&self)
        requires
            self.wf(),
        ensures
            forall|k: Seq<char>| #[trigger]
                self@.orders.contains_key(k) ==> self@.orders[k].order_id == k,
    {
        lemma_orders_map(self.orders.deep_view());
    }

    /// An engine without orders.
    pub fn new() -> (r: Self)
        ensures
            r.wf(),
            r@ == EngineView::empty(),
    {
        let r = ExecutionEngine { orders: Vec::new(), next_local_id: 1 };
        assert(r.orders.deep_view() =~= Seq::empty());
        r
    }

    /// Takes the next local id for an order at a venue.
    pub fn next_order_id(&mut self, venue: Venue) -> (r: OrderId)
        requires
            old(self).wf(),
            old(self)@.next_local_id < u64::MAX,
        ensures
            final(self).wf(),
            r@ == types::order_id_text(venue, old(self)@.next_local_id as nat),
            final(self)@ == (EngineView {
                next_local_id: (old(self)@.next_local_id + 1) as u64,
                ..old(self)@
            }),
    {
        let id = OrderId::new(venue, self.next_local_id);
        self.next_local_id = self.next_local_id + 1;
        id
    }

    /// The local id that the next order gets.
    pub fn next_local_id(&self) -> (r: u64)
        ensures
            r == self@.next_local_id,
    {
        self.next_local_id
    }

    /// Where an order stands in the list.
    fn find(&self, order_id: &str) -> (r: Option<usize>)
        requires
            self.wf(),
        ensures
            match r {
                Some(i) => i < self.orders@.len() && self.orders@[i as int]@.order_id
                    == order_id@ && self@.orders.contains_key(order_id@)
                    && self@.orders[order_id@] == self.orders@[i as int]@,
                None => !self@.orders.contains_key(order_id@),
            },
    {
        let ghost s = self.orders.deep_view();
        proof {
            lemma_orders_map(s);
        }
        let mut i: usize = 0;
        while i < self.orders.len()
            invariant
                s == self.orders.deep_view(),
                unique_ids(s),
                self@.orders == orders_map(s),
                forall|k: int| 0 <= k < s.len() ==> orders_map(s).contains_key(
                    (#[trigger] s[k]).order_id,
                ) && orders_map(s)[s[k].order_id] == s[k],
                i <= self.orders@.len(),
                forall|k: int| 0 <= k < i ==> (#[trigger] s[k]).order_id != order_id@,
            decreases self.orders.len() - i,
        {
            assert(s[i as int] == self.orders@[i as int]@);
            if text::is_same(self.orders[i].order_id.0.as_str(), order_id) {
                return Some(i);
            }
            i += 1;
        }
        None
    }

    /// Registers a new order.
    pub fn register_order(&mut self, order: LiveOrder) -> (r: Result<(), String>)
        requires
            old(self).wf(),
        ensures
            final(self).wf(),
            match (r, old(self)@.registered(order@)) {
                (Ok(_), Ok(next)) => final(self)@ == next,
                (Err(e), Err(text)) => e@ == text && final(self)@ == old(self)@,
                _ => false,
            },
    {
        if self.find(order.order_id.0.as_str()).is_some() {
            let mut message = "order already exists: ".to_owned();
            message.append(order.order_id.0.as_str());
            return Err(message);
        }
        let ghost s = self.orders.deep_view();
        let ghost o = order@;
        self.orders.push(order);
        proof {
            lemma_push(s, o);
            assert(self.orders.deep_view() =~= s.push(o));
        }
        Ok(())
    }

    /// The error for a transition that the state machine does not have.
    fn transition_error(from: OrderState, to: OrderState) -> (r: String)
        ensures
            r@ == bad_transition(from, to),
    {
        let mut message = "invalid transition: ".to_owned();
        message.append(from.as_str());
        message.append(" -> ");
        message.append(to.as_str());
        message
    }

    /// Replaces the order at a place by one with the same id.
    fn replace(&mut self, i: usize, order: LiveOrder)
        requires
            old(self).wf(),
            i < old(self).orders@.len(),
            order@.order_id == old(self).orders@[i as int]@.order_id,
        ensures
            final(self).wf(),
            final(self)@ == old(self)@.with(order@),
    {
        let ghost s = self.orders.deep_view();
        let ghost o = order@;
        self.orders.set(i, order);
        proof {
            lemma_update(s, i as int, o);
            assert(self.orders.deep_view() =~= s.update(i as int, o));
        }
    }

    /// The exchange accepted an order.
    pub fn on_ack(&mut self, order_id: &str, exchange_id: String, ts: u64) -> (r: Result<
        (),
        String,
    >)
        requires
            old(self).wf(),
        ensures
            final(self).wf(),
            match (r, old(self)@.acked(order_id@, exchange_id@, ts)) {
                (Ok(_), Ok(next)) => final(self)@ == next,
                (Err(e), Err(text)) => e@ == text && final(self)@ == old(self)@,
                _ => false,
            },
    {
        match self.find(order_id) {
            None => Err("order not found".to_owned()),
            Some(i) => {
                let mut order = self.orders[i].clone();
                if !order.state.can_transition_to(OrderState::Ack) {
                    return Err(Self::transition_error(order.state, OrderState::Ack));
                }
                order.state = OrderState::Ack;
                order.exchange_order_id = Some(exchange_id);
                order.updated_at = ts;
                self.replace(i, order);
                Ok(())
            },
        }
    }

    /// Processes a fill, partial or complete, and says whether it was complete.
    pub fn on_fill(&mut self, order_id: &str, fill_qty: Qty, _fill_price: Price, ts: u64) -> (r:
        Result<bool, String>)
        requires
            old(self).wf(),
            old(self)@.orders.contains_key(order_id@) ==> old(
                self,
            )@.orders[order_id@].filled_qty.0 + fill_qty.0 <= u64::MAX,
        ensures
            final(self).wf(),
            match (r, old(self)@.filled(order_id@, fill_qty, ts)) {
                (Ok(complete), Ok(next)) => final(self)@ == next && complete == old(
                    self,
                )@.completes(order_id@, fill_qty),
                (Err(e), Err(text)) => e@ == text && final(self)@ == old(self)@,
                _ => false,
            },
    {
        match self.find(order_id) {
            None => Err("order not found".to_owned()),
            Some(i) => {
                let mut order = self.orders[i].clone();
                let new_filled: u64 = order.filled_qty.0 + fill_qty.0;
                let is_complete = new_filled >= order.original_qty.0;
                let target_state = if is_complete {
                    OrderState::Filled
                } else {
                    OrderState::PartialFill
                };
                if !order.state.can_transition_to(target_state) {
                    return Err(Self::transition_error(order.state, target_state));
                }
                order.filled_qty = Qty(new_filled);
                order.remaining_qty = order.original_qty.saturating_sub(Qty(new_filled));
                order.state = target_state;
                order.updated_at = ts;
                self.replace(i, order);
                Ok(is_complete)
            },
        }
    }

    /// Cancels an order.
    pub fn on_cancel(&mut self, order_id: &str, ts: u64) -> (r: Result<(), String>)
        requires
            old(self).wf(),
        ensures
            final(self).wf(),
            match (r, old(self)@.canceled(order_id@, ts)) {
                (Ok(_), Ok(next)) => final(self)@ == next,
                (Err(e), Err(text)) => e@ == text && final(self)@ == old(self)@,
                _ => false,
            },
    {
        match self.find(order_id) {
            None => Err("order not found".to_owned()),
            Some(i) => {
                let mut order = self.orders[i].clone();
                if !order.state.can_transition_to(OrderState::Canceled) {
                    return Err(Self::transition_error(order.state, OrderState::Canceled));
                }
                order.state = OrderState::Canceled;
                order.updated_at = ts;
                self.replace(i, order);
                Ok(())
            },
        }
    }

    /// Rejects an order.
    pub fn on_reject(&mut self, order_id: &str, ts: u64) -> (r: Result<(), String>)
        requires
            old(self).wf(),
        ensures
            final(self).wf(),
            match (r, old(self)@.rejected(order_id@, ts)) {
                (Ok(_), Ok(next)) => final(self)@ == next,
                (Err(e), Err(text)) => e@ == text && final(self)@ == old(self)@,
                _ => false,
            },
    {
        match self.find(order_id) {
            None => Err("order not found".to_owned()),
            Some(i) => {
                let mut order = self.orders[i].clone();
                if !order.state.can_transition_to(OrderState::Rejected) {
                    return Err(Self::transition_error(order.state, OrderState::Rejected));
                }
                order.state = OrderState::Rejected;
                order.updated_at = ts;
                self.replace(i, order);
                Ok(())
            },
        }
    }

    /// The order with an id.
    pub fn get_order(&self, order_id: &str) -> (r: Option<&LiveOrder>)
        requires
            self.wf(),
        ensures
            match r {
                Some(order) => self@.orders.contains_key(order_id@) && order@
                    == self@.orders[order_id@],
                None => !self@.orders.contains_key(order_id@),
            },
    {
        match self.find(order_id) {
            Some(i) => Some(&self.orders[i]),
            None => None,
        }
    }

    /// The orders whose life has not ended, each once.
    pub fn open_orders(&self) -> (r: Vec<&LiveOrder>)
        requires
            self.wf(),
        ensures
            unique_ids(r.deep_view()),
            orders_map(r.deep_view()) == orders_where(
                self@.orders,
                |o: LiveOrderView| !o.state.terminal(),
            ),
    {
        let ghost s = self.orders.deep_view();
        let ghost open = |o: LiveOrderView| !o.state.terminal();
        let mut out: Vec<&LiveOrder> = Vec::new();
        let mut i: usize = 0;
        proof {
            assert(out.deep_view() =~= Seq::empty());
            assert(s.take(0) =~= Seq::empty());
            assert(orders_where(Map::empty(), open) =~= Map::empty());
        }
        while i < self.orders.len()
            invariant
                s == self.orders.deep_view(),
                unique_ids(s),
                i <= self.orders@.len(),
                open == (|o: LiveOrderView| !o.state.terminal()),
                unique_ids(out.deep_view()),
                orders_map(out.deep_view()) == orders_where(orders_map(s.take(i as int)), open),
            decreases self.orders.len() - i,
        {
            let ghost kept = out.deep_view();
            proof {
                lemma_next(s, i as int);
                lemma_push(kept, s[i as int]);
            }
            if !self.orders[i].state.is_terminal() {
                out.push(&self.orders[i]);
                assert(out.deep_view() =~= kept.push(s[i as int]));
            }
            assert(orders_map(out.deep_view()) =~= orders_where(
                orders_map(s.take(i + 1)),
                open,
            ));
            i += 1;
        }
        assert(s.take(i as int) =~= s);
        out
    }

    /// The ids of all orders whose life has not ended, each once.
    pub fn open_order_ids(&self) -> (r: Vec<OrderId>)
        requires
            self.wf(),
        ensures
            r.deep_view().no_duplicates(),
            r.deep_view().to_set() == orders_where(
                self@.orders,
                |o: LiveOrderView| !o.state.terminal(),
            ).dom(),
    {
        let open = self.open_orders();
        let ids = ids_of(&open);
        ids
    }

    /// The ids of accepted orders whose life has not ended and whose last update is more than
    /// `timeout_ns` ago, each once.
    pub fn stale_order_ids(&self, now_ns: u64, timeout_ns: u64) -> (r: Vec<OrderId>)
        requires
            self.wf(),
        ensures
            r.deep_view().no_duplicates(),
            r.deep_view().to_set() == orders_where(
                self@.orders,
                |o: LiveOrderView| is_stale(o, now_ns, timeout_ns),
            ).dom(),
    {
        let ghost s = self.orders.deep_view();
        let ghost stale = |o: LiveOrderView| is_stale(o, now_ns, timeout_ns);
        let mut out: Vec<&LiveOrder> = Vec::new();
        let mut i: usize = 0;
        proof {
            assert(out.deep_view() =~= Seq::empty());
            assert(s.take(0) =~= Seq::empty());
            assert(orders_where(Map::empty(), stale) =~= Map::empty());
        }
        while i < self.orders.len()
            invariant
                s == self.orders.deep_view(),
                unique_ids(s),
                i <= self.orders@.len(),
                stale == (|o: LiveOrderView| is_stale(o, now_ns, timeout_ns)),
                unique_ids(out.deep_view()),
                orders_map(out.deep_view()) == orders_where(orders_map(s.take(i as int)), stale),
            decreases self.orders.len() - i,
        {
            let ghost kept = out.deep_view();
            proof {
                lemma_next(s, i as int);
                lemma_push(kept, s[i as int]);
            }
            let order = &self.orders[i];
            assert(order@ == s[i as int]);
            if !order.state.is_terminal() && order.state != OrderState::New && now_ns
                >= order.updated_at && now_ns - order.updated_at > timeout_ns {
                out.push(order);
                assert(out.deep_view() =~= kept.push(s[i as int]));
            }
            assert(orders_map(out.deep_view()) =~= orders_where(
                orders_map(s.take(i + 1)),
                stale,
            ));
            i += 1;
        }
        assert(s.take(i as int) =~= s);
        ids_of(&out)
    }

    /// All orders, each once.
    pub fn all_orders(&self) -> (r: &Vec<LiveOrder>)
        requires
            self.wf(),
        ensures
            unique_ids(r.deep_view()),
            orders_map(r.deep_view()) == self@.orders,
    {
        &self.orders
    }

    /// Removes the orders whose life has ended, and says how many there were.
    pub fn gc_terminal(&mut self) -> (r: usize)
        requires
            old(self).wf(),
        ensures
            final(self).wf(),
            final(self)@ == old(self)@.collected(),
            r == orders_where(old(self)@.orders, |o: LiveOrderView| o.state.terminal()).len(),
    {
        let ghost s = self.orders.deep_view();
        let ghost open = |o: LiveOrderView| !o.state.terminal();
        let ghost ended = |o: LiveOrderView| o.state.terminal();
        let mut kept: Vec<LiveOrder> = Vec::new();
        let mut removed: usize = 0;
        let mut i: usize = 0;
        proof {
            assert(kept.deep_view() =~= Seq::empty());
            assert(s.take(0) =~= Seq::empty());
            assert(orders_where(Map::empty(), open) =~= Map::empty());
            assert(orders_where(Map::empty(), ended) =~= Map::empty());
        }
        while i < self.orders.len()
            invariant
                s == self.orders.deep_view(),
                unique_ids(s),
                i <= self.orders@.len(),
                removed <= i,
                open == (|o: LiveOrderView| !o.state.terminal()),
                ended == (|o: LiveOrderView| o.state.terminal()),
                unique_ids(kept.deep_view()),
                orders_map(kept.deep_view()) == orders_where(orders_map(s.take(i as int)), open),
                orders_where(orders_map(s.take(i as int)), ended).dom().finite(),
                removed == orders_where(orders_map(s.take(i as int)), ended).len(),
            decreases self.orders.len() - i,
        {
            let ghost before = kept.deep_view();
            let ghost m = orders_map(s.take(i as int));
            let ghost o = s[i as int];
            proof {
                lemma_next(s, i as int);
                lemma_push(before, o);
            }
            let order = self.orders[i].clone();
            assert(order@ == o);
            if !order.state.is_terminal() {
                kept.push(order);
                assert(kept.deep_view() =~= before.push(o));
                assert(orders_where(m.insert(o.order_id, o), ended) =~= orders_where(m, ended));
            } else {
                removed += 1;
                assert(orders_where(m.insert(o.order_id, o), ended) =~= orders_where(
                    m,
                    ended,
                ).insert(o.order_id, o));
            }
            assert(orders_map(kept.deep_view()) =~= orders_where(
                orders_map(s.take(i + 1)),
                open,
            ));
            i += 1;
        }
        assert(s.take(i as int) =~= s);
        self.orders = kept;
        removed
    }

    /// The orders in increasing order of id.
    fn sorted_orders(&self) -> (r: Vec<LiveOrder>)
        requires
            self.wf(),
        ensures
            r.deep_view() == listing(self@.orders),
            is_listing(listing(self@.orders), self@.orders),
    {
        let ghost s = self.orders.deep_view();
        let mut sorted: Vec<LiveOrder> = Vec::new();
        let mut i: usize = 0;
        proof {
            assert(sorted.deep_view() =~= Seq::empty());
            assert(s.take(0) =~= Seq::empty());
        }
        while i < self.orders.len()
            invariant
                s == self.orders.deep_view(),
                unique_ids(s),
                i <= self.orders@.len(),
                increasing_ids(sorted.deep_view()),
                orders_map(sorted.deep_view()) == orders_map(s.take(i as int)),
            decreases self.orders.len() - i,
        {
            let ghost t = sorted.deep_view();
            let ghost o = s[i as int];
            let order = self.orders[i].clone();
            assert(order@ == o);
            proof {
                lemma_next(s, i as int);
                lemma_increasing_unique(t);
                lemma_orders_map(t);
            }
            let mut place: usize = sorted.len();
            while place > 0 && text::is_less(
                order.order_id.0.as_str(),
                sorted[place - 1].order_id.0.as_str(),
            )
                invariant
                    t == sorted.deep_view(),
                    order@ == o,
                    place <= t.len(),
                    forall|k: int|
                        place <= k < t.len() ==> text::text_less(
                            o.order_id,
                            (#[trigger] t[k]).order_id,
                        ),
                decreases place,
            {
                assert(t[place - 1] == sorted@[place - 1]@);
                place -= 1;
            }
            proof {
                if place > 0 {
                    assert(t[place - 1] == sorted@[place - 1]@);
                    text::lemma_text_less_total(o.order_id, t[place - 1].order_id);
                    assert(t[place - 1].order_id != o.order_id) by {
                        assert(orders_map(t).contains_key(t[place - 1].order_id));
                    }
                    assert forall|k: int| 0 <= k < place implies text::text_less(
                        (#[trigger] t[k]).order_id,
                        o.order_id,
                    ) by {
                        if k < place - 1 {
                            text::lemma_text_less_trans(
                                t[k].order_id,
                                t[place - 1].order_id,
                                o.order_id,
                            );
                        }
                    }
                }
                lemma_insert(t, place as int, o);
            }
            sorted.insert(place, order);
            proof {
                let u = t.insert(place as int, o);
                assert(sorted.deep_view() =~= u);
                assert forall|a: int, b: int| 0 <= a < b < u.len() implies text::text_less(
                    (#[trigger] u[a]).order_id,
                    (#[trigger] u[b]).order_id,
                ) by {
                    let x = if a < place {
                        a
                    } else {
                        a - 1
                    };
                    let y = if b < place {
                        b
                    } else {
                        b - 1
                    };
                    if a != place {
                        assert(u[a] == t[x]);
                    }
                    if b != place {
                        assert(u[b] == t[y]);
                    }
                }
            }
            i += 1;
        }
        proof {
            assert(s.take(i as int) =~= s);
            lemma_is_listing(sorted.deep_view());
        }
        sorted
    }

    /// The state in its binary form, with the orders in increasing order of id, so that equal
    /// states have equal bytes.
    pub fn serialize_state(&self) -> (r: Vec<u8>)
        requires
            self.wf(),
        ensures
            r@ == self@.bytes(),
            self@.encodable(),
    {
        let state = (self.sorted_orders(), self.next_local_id);
        codec::encode(&state)
    }

    /// The hash of the state.
    pub fn state_hash(&self) -> (r: [u8; 8])
        requires
            self.wf(),
        ensures
            r@ == self@.hash(),
    {
        let data = self.serialize_state();
        EngineSnapshot::compute_hash(data.as_slice())
    }

    /// A snapshot of the state at a sequence number.
    pub fn snapshot(&self, seq: u64, timestamp: u64) -> (r: EngineSnapshot)
        requires
            self.wf(),
        ensures
            r@ == (EngineSnapshotView {
                seq,
                timestamp,
                state_hash: self@.hash(),
                events_since_last: 0,
                state_data: self@.bytes(),
            }),
            r@.verified(),
            EngineView::from_bytes(r@.state_data) == Some(self@),
    {
        let state_data = self.serialize_state();
        let state_hash = EngineSnapshot::compute_hash(state_data.as_slice());
        proof {
            bytes_round_trip(self@);
        }
        EngineSnapshot { seq, timestamp, state_hash, events_since_last: 0, state_data }
    }

    /// Restores the state of a snapshot. On an error the state stays as it is.
    ///
    /// Bytes that are no state give a text that ends in the decoder's own words.
    pub fn restore(&mut self, snapshot: &EngineSnapshot) -> (r: Result<(), String>)
        requires
            old(self).wf(),
        ensures
            final(self).wf(),
            match r {
                Ok(_) => snapshot@.verified() && EngineView::from_bytes(snapshot@.state_data)
                    == Some(final(self)@),
                Err(e) => {
                    &&& final(self)@ == old(self)@
                    &&& if snapshot@.verified() {
                        &&& EngineView::from_bytes(snapshot@.state_data) is None
                        &&& ("failed to deserialize snapshot: "@).is_prefix_of(e@)
                    } else {
                        e@ == "snapshot hash verification failed"@
                    }
                },
            },
    {
        if !snapshot.verify() {
            return Err("snapshot hash verification failed".to_owned());
        }
        let decoded: Result<(Vec<LiveOrder>, u64), String> = codec::decode(
            snapshot.state_data.as_slice(),
        );
        match decoded {
            Err(e) => {
                let mut message = "failed to deserialize snapshot: ".to_owned();
                message.append(e.as_str());
                Err(message)
            },
            Ok((orders, next_local_id)) => {
                let ghost s = orders.deep_view();
                let mut fresh = ExecutionEngine { orders: Vec::new(), next_local_id };
                let mut i: usize = 0;
                proof {
                    assert(fresh.orders.deep_view() =~= Seq::empty());
                    assert(s.take(0) =~= Seq::empty());
                }
                while i < orders.len()
                    invariant
                        s == orders.deep_view(),
                        i <= orders@.len(),
                        fresh.wf(),
                        fresh@ == (EngineView {
                            orders: orders_map(s.take(i as int)),
                            next_local_id,
                        }),
                    decreases orders.len() - i,
                {
                    let order = orders[i].clone();
                    let ghost o = s[i as int];
                    assert(order@ == o);
                    assert(s.take(i + 1).drop_last() =~= s.take(i as int));
                    match fresh.find(order.order_id.0.as_str()) {
                        Some(at) => {
                            fresh.replace(at, order);
                        },
                        None => {
                            let ghost t = fresh.orders.deep_view();
                            fresh.orders.push(order);
                            proof {
                                lemma_push(t, o);
                                assert(fresh.orders.deep_view() =~= t.push(o));
                            }
                        },
                    }
                    i += 1;
                }
                assert(s.take(i as int) =~= s);
                self.orders = fresh.orders;
                self.next_local_id = fresh.next_local_id;
                Ok(())
            },
        }
    }

    /// Whether the filled quantity stays within 64 bits when an event is applied.
    pub fn can_apply(&self, event: &Event) -> (r: bool)
        requires
            self.wf(),
        ensures
            r == self@.fill_fits(event@),
    {
        match &event.payload {
            EventPayload::OrderFill(e) | EventPayload::OrderPartialFill(e) => {
                match self.get_order(e.order_id.0.as_str()) {
                    Some(order) => order.filled_qty.0 <= u64::MAX - e.qty.0,
                    None => true,
                }
            },
            _ => true,
        }
    }

    /// Applies an event. Says whether it was about an order; one that does not apply is an
    /// error and changes nothing.
    pub fn process_event(&mut self, event: &Event) -> (r: Result<bool, String>)
        requires
            old(self).wf(),
            old(self)@.fill_fits(event@),
        ensures
            final(self).wf(),
            final(self)@ == old(self)@.after(event@),
            match (r, old(self)@.applied(event@)) {
                (Ok(relevant), Ok(_)) => relevant == EngineView::concerns(event@),
                (Err(e), Err(text)) => e@ == text,
                _ => false,
            },
    {
        match &event.payload {
            EventPayload::OrderNew(e) => {
                let order = LiveOrder::new(
                    e.order_id.clone(),
                    e.symbol.clone(),
                    e.side,
                    e.order_type,
                    e.price,
                    e.qty,
                    e.time_in_force,
                    e.venue,
                    event.timestamp,
                );
                match self.register_order(order) {
                    Ok(_) => Ok(true),
                    Err(text) => Err(text),
                }
            },
            EventPayload::OrderAck(e) => {
                match self.on_ack(
                    e.order_id.0.as_str(),
                    e.exchange_order_id.clone(),
                    event.timestamp,
                ) {
                    Ok(_) => Ok(true),
                    Err(text) => Err(text),
                }
            },
            EventPayload::OrderFill(e) | EventPayload::OrderPartialFill(e) => {
                match self.on_fill(e.order_id.0.as_str(), e.qty, e.price, event.timestamp) {
                    Ok(_) => Ok(true),
                    Err(text) => Err(text),
                }
            },
            EventPayload::OrderCancel(e) => {
                match self.on_cancel(e.order_id.0.as_str(), event.timestamp) {
                    Ok(_) => Ok(true),
                    Err(text) => Err(text),
                }
            },
            EventPayload::OrderReject(e) => {
                match self.on_reject(e.order_id.0.as_str(), event.timestamp) {
                    Ok(_) => Ok(true),
                    Err(text) => Err(text),
                }
            },
            _ => Ok(false),
        }
    }
}

impl Default for ExecutionEngine {
    fn default() -> (r: Self)
        ensures
            r.wf(),
            r@ == EngineView::empty(),
    {
        Self::new()
    }
}

/// Whether an accepted order whose life has not ended was last updated too long ago.
pub open spec fn is_stale(o: LiveOrderView, now_ns: u64, timeout_ns: u64) -> bool {
    !o.state.terminal() && o.state != OrderState::New && now_ns - o.updated_at > timeout_ns
}

/// The next order of a list without repeated ids is not among those before it.
proof fn lemma_next(s: Seq<LiveOrderView>, i: int)
    requires
        unique_ids(s),
        0 <= i < s.len(),
    ensures
        !orders_map(s.take(i)).contains_key(s[i].order_id),
        orders_map(s.take(i + 1)) == orders_map(s.take(i)).insert(s[i].order_id, s[i]),
{
    let front = s.take(i);
    assert(unique_ids(front)) by {
        assert forall|a: int, b: int| 0 <= a < b < front.len() implies (#[trigger] front[a]).order_id
            != (#[trigger] front[b]).order_id by {
            assert(s[a].order_id != s[b].order_id);
        }
    }
    lemma_orders_map(front);
    if orders_map(front).contains_key(s[i].order_id) {
        let j = choose|j: int|
            0 <= j < front.len() && (#[trigger] front[j]).order_id == s[i].order_id;
        assert(s[j].order_id == s[i].order_id);
    }
    assert(s.take(i + 1).drop_last() =~= front);
}

/// The ids of a list of orders.
fn ids_of(orders: &Vec<&LiveOrder>) -> (r: Vec<OrderId>)
    requires
        unique_ids(orders.deep_view()),
    ensures
        r.deep_view().no_duplicates(),
        r.deep_view().to_set() == orders_map(orders.deep_view()).dom(),
{
    let ghost s = orders.deep_view();
    let mut out: Vec<OrderId> = Vec::new();
    let mut i: usize = 0;
    while i < orders.len()
        invariant
            s == orders.deep_view(),
            i <= orders@.len(),
            out@.len() == i,
            forall|k: int| 0 <= k < i ==> (#[trigger] out@[k])@ == s[k].order_id,
        decreases orders.len() - i,
    {
        assert(s[i as int] == orders@[i as int]@);
        out.push(orders[i].order_id.clone());
        i += 1;
    }
    proof {
        lemma_orders_map(s);
        let ids = out.deep_view();
        assert forall|a: int, b: int| 0 <= a < ids.len() && 0 <= b < ids.len() && a != b implies
            ids[a] != ids[b] by {
            assert(s[a].order_id != s[b].order_id);
        }
        assert forall|k: Seq<char>| #[trigger] ids.to_set().contains(k) == orders_map(
            s,
        ).dom().contains(k) by {
            if orders_map(s).contains_key(k) {
                let j = choose|j: int| 0 <= j < s.len() && (#[trigger] s[j]).order_id == k;
                assert(ids[j] == k);
            }
            if ids.contains(k) {
                let j = choose|j: int| 0 <= j < ids.len() && ids[j] == k;
                assert(s[j].order_id == k);
            }
        }
        assert(ids.to_set() =~= orders_map(s).dom());
    }
    out
}

/// Decides when the state is to be verified, and compares hashes with peers.
pub struct StateVerifier {
    interval: u64,
    events_since_verify: u64,
    last_verified_seq: u64,
    last_hash: [u8; 8],
}

/// The contents of a [`StateVerifier`].
#[verifier::ext_equal]
pub struct StateVerifierView {
    pub interval: u64,
    pub events_since_verify: u64,
    pub last_verified_seq: u64,
    pub last_hash: Seq<u8>,
}

impl StateVerifierView {
    /// After one more event was counted.
    pub open spec fn ticked(self) -> StateVerifierView {
        StateVerifierView {
            events_since_verify: (self.events_since_verify + 1) as u64,
            ..self
        }
    }

    /// Whether it is time to verify when one more event is counted.
    pub open spec fn falls_due(self) -> bool {
        self.events_since_verify + 1 >= self.interval
    }

    /// After the hash at a sequence number was recorded.
    pub open spec fn verified(self, seq: u64, hash: Seq<u8>) -> StateVerifierView {
        StateVerifierView {
            events_since_verify: 0,
            last_verified_seq: seq,
            last_hash: hash,
            ..self
        }
    }

    /// Whether a peer's hash agrees with the last one recorded.
    pub open spec fn accepts(self, seq: u64, hash: Seq<u8>) -> bool {
        seq != self.last_verified_seq || self.last_hash == hash
    }

    /// After some events were counted.
    pub open spec fn after_ticks(self, n: nat) -> StateVerifierView
        decreases n,
    {
        if n == 0 {
            self
        } else {
            self.after_ticks((n - 1) as nat).ticked()
        }
    }
}

/// Once a hash is recorded, the next check falls due with as many events as the interval has, not
/// before.
pub proof fn checks_come_at_intervals(v: StateVerifierView, seq: u64, hash: Seq<u8>, n: nat)
    requires
        0 < n < u64::MAX,
    ensures
        v.verified(seq, hash).after_ticks((n - 1) as nat).falls_due() <==> n >= v.interval,
        v.verified(seq, hash).after_ticks(n).last_verified_seq == seq,
        v.verified(seq, hash).after_ticks(n).last_hash == hash,
        v.verified(seq, hash).after_ticks(n).events_since_verify == n,
        v.verified(seq, hash).after_ticks(n).interval == v.interval,
    decreases n,
{
    reveal_with_fuel(StateVerifierView::after_ticks, 2);
    if n > 1 {
        checks_come_at_intervals(v, seq, hash, (n - 1) as nat);
    }
}

/// Once a hash is recorded, a peer agrees at that sequence number with that hash alone; at any other
/// it is not held to anything.
pub proof fn peers_are_held_to_the_last_hash(
    v: StateVerifierView,
    seq: u64,
    hash: Seq<u8>,
    peer_seq: u64,
    peer_hash: Seq<u8>,
)
    ensures
        v.verified(seq, hash).accepts(seq, peer_hash) <==> peer_hash == hash,
        peer_seq != seq ==> v.verified(seq, hash).accepts(peer_seq, peer_hash),
{
}

impl View for StateVerifier {
    type V = StateVerifierView;

    closed spec fn view(&self) -> StateVerifierView {
        StateVerifierView {
            interval: self.interval,
            events_since_verify: self.events_since_verify,
            last_verified_seq: self.last_verified_seq,
            last_hash: self.last_hash@,
        }
    }
}

impl StateVerifier {
    /// A verifier that asks for a check every `interval` events.
    pub fn new(interval: u64) -> (r: Self)
        ensures
            r@ == (StateVerifierView {
                interval,
                events_since_verify: 0,
                last_verified_seq: 0,
                last_hash: Seq::new(8, |i: int| 0u8),
            }),
    {
        let r = StateVerifier {
            interval,
            events_since_verify: 0,
            last_verified_seq: 0,
            last_hash: [0u8; 8],
        };
        assert(r.last_hash@ =~= Seq::new(8, |i: int| 0u8));
        r
    }

    /// Whether one more event can be counted.
    pub fn can_tick(&self) -> (r: bool)
        ensures
            r == (self@.events_since_verify < u64::MAX),
    {
        self.events_since_verify < u64::MAX
    }

    /// Counts an event, and says whether it is time to verify.
    pub fn tick(&mut self) -> (r: bool)
        requires
            old(self)@.events_since_verify < u64::MAX,
        ensures
            final(self)@ == old(self)@.ticked(),
            r == old(self)@.falls_due(),
    {
        self.events_since_verify = self.events_since_verify + 1;
        self.events_since_verify >= self.interval
    }

    /// Records the hash at a sequence number, and starts counting again.
    pub fn on_verified(&mut self, seq: u64, hash: [u8; 8])
        ensures
            final(self)@ == old(self)@.verified(seq, hash@),
    {
        self.last_verified_seq = seq;
        self.last_hash = hash;
        self.events_since_verify = 0;
    }

    /// Whether a peer's hash agrees with the last one recorded; at another sequence number
    /// there is nothing to compare.
    pub fn verify_peer(&self, seq: u64, peer_hash: [u8; 8]) -> (r: bool)
        ensures
            r == self@.accepts(seq, peer_hash@),
    {
        if seq != self.last_verified_seq {
            return true;
        }
        snapshot::same_hash(&self.last_hash, &peer_hash)
    }

    /// The last hash recorded.
    pub fn last_hash(&self) -> (r: [u8; 8])
        ensures
            r@ == self@.last_hash,
    {
        self.last_hash
    }

    /// The sequence number of the last hash recorded.
    pub fn last_seq(&self) -> (r: u64)
        ensures
            r == self@.last_verified_seq,
    {
        self.last_verified_seq
    }
}

impl DeepView for OrderState {
    type V = OrderState;

    open spec fn deep_view(&self) -> OrderState {
        *self
    }
}

impl Wire for OrderState {
    open spec fn fits(v: OrderState) -> bool {
        true
    }

    open spec fn enc(v: OrderState) -> Seq<u8> {
        u32::enc(
            match v {
                OrderState::New => 0u32,
                OrderState::Ack => 1u32,
                OrderState::PartialFill => 2u32,
                OrderState::Filled => 3u32,
                OrderState::Canceled => 4u32,
                OrderState::Rejected => 5u32,
            },
        )
    }

    open spec fn dec(s: Seq<u8>) -> Option<(OrderState, Seq<u8>)> {
        match u32::dec(s) {
            None => None,
            Some((index, rest)) => match index {
                0 => Some((OrderState::New, rest)),
                1 => Some((OrderState::Ack, rest)),
                2 => Some((OrderState::PartialFill, rest)),
                3 => Some((OrderState::Filled, rest)),
                4 => Some((OrderState::Canceled, rest)),
                5 => Some((OrderState::Rejected, rest)),
                _ => None,
            },
        }
    }

    proof fn round_trip(v: OrderState, rest: Seq<u8>) {
        let index: u32 = match v {
            OrderState::New => 0,
            OrderState::Ack => 1,
            OrderState::PartialFill => 2,
            OrderState::Filled => 3,
            OrderState::Canceled => 4,
            OrderState::Rejected => 5,
        };
        u32::round_trip(index, rest);
    }

    fn put(&self, out: &mut Vec<u8>) {
        let index: u32 = match self {
            OrderState::New => 0,
            OrderState::Ack => 1,
            OrderState::PartialFill => 2,
            OrderState::Filled => 3,
            OrderState::Canceled => 4,
            OrderState::Rejected => 5,
        };
        index.put(out);
    }

    fn get(data: &[u8], pos: usize) -> (r: Result<(OrderState, usize), String>) {
        match u32::get(data, pos) {
            Err(e) => Err(e),
            Ok((index, next)) => match index {
                0 => Ok((OrderState::New, next)),
                1 => Ok((OrderState::Ack, next)),
                2 => Ok((OrderState::PartialFill, next)),
                3 => Ok((OrderState::Filled, next)),
                4 => Ok((OrderState::Canceled, next)),
                5 => Ok((OrderState::Rejected, next)),
                _ => Err(codec::invalid_variant(index, 6)),
            },
        }
    }
}

impl LiveOrder {
    /// Writes the fields from the quantities on.
    fn put_amounts(&self, out: &mut Vec<u8>)
        ensures
            final(out)@ == old(out)@ + <(Qty, (Qty, (Qty, (TimeInForce, (Venue, (OrderState, (u64, u64)))))))>::enc((self.original_qty, (self.filled_qty, (self.remaining_qty, (self.time_in_force, (self.venue, (self.state, (self.created_at, self.updated_at)))))))),
    {
        let ghost before = out@;
        self.original_qty.put(out);
        self.filled_qty.put(out);
        self.remaining_qty.put(out);
        self.time_in_force.put(out);
        self.venue.put(out);
        self.state.put(out);
        self.created_at.put(out);
        self.updated_at.put(out);
        assert(out@ =~= before + <(Qty, (Qty, (Qty, (TimeInForce, (Venue, (OrderState, (u64, u64)))))))>::enc((self.original_qty, (self.filled_qty, (self.remaining_qty, (self.time_in_force, (self.venue, (self.state, (self.created_at, self.updated_at)))))))));
    }
}

impl Wire for LiveOrder {
    open spec fn fits(v: LiveOrderView) -> bool {
        <(OrderId, (Option<String>, (Symbol, (Side, (OrderType, (Price, (Qty, (Qty, (Qty, (TimeInForce, (Venue, (OrderState, (u64, u64)))))))))))))>::fits((v.order_id, (v.exchange_order_id, (v.symbol, (v.side, (v.order_type, (v.price, (v.original_qty, (v.filled_qty, (v.remaining_qty, (v.time_in_force, (v.venue, (v.state, (v.created_at, v.updated_at))))))))))))))
    }

    open spec fn enc(v: LiveOrderView) -> Seq<u8> {
        <(OrderId, (Option<String>, (Symbol, (Side, (OrderType, (Price, (Qty, (Qty, (Qty, (TimeInForce, (Venue, (OrderState, (u64, u64)))))))))))))>::enc((v.order_id, (v.exchange_order_id, (v.symbol, (v.side, (v.order_type, (v.price, (v.original_qty, (v.filled_qty, (v.remaining_qty, (v.time_in_force, (v.venue, (v.state, (v.created_at, v.updated_at))))))))))))))
    }

    open spec fn dec(s: Seq<u8>) -> Option<(LiveOrderView, Seq<u8>)> {
        match <(OrderId, (Option<String>, (Symbol, (Side, (OrderType, (Price, (Qty, (Qty, (Qty, (TimeInForce, (Venue, (OrderState, (u64, u64)))))))))))))>::dec(s) {
            None => None,
            Some(((order_id, (exchange_order_id, (symbol, (side, (order_type, (price, (original_qty, (filled_qty, (remaining_qty, (time_in_force, (venue, (state, (created_at, updated_at))))))))))))), rest)) => Some((LiveOrderView { order_id, exchange_order_id, symbol, side, order_type, price, original_qty, filled_qty, remaining_qty, time_in_force, venue, state, created_at, updated_at }, rest)),
        }
    }

    proof fn round_trip(v: LiveOrderView, rest: Seq<u8>) {
        <(OrderId, (Option<String>, (Symbol, (Side, (OrderType, (Price, (Qty, (Qty, (Qty, (TimeInForce, (Venue, (OrderState, (u64, u64)))))))))))))>::round_trip((v.order_id, (v.exchange_order_id, (v.symbol, (v.side, (v.order_type, (v.price, (v.original_qty, (v.filled_qty, (v.remaining_qty, (v.time_in_force, (v.venue, (v.state, (v.created_at, v.updated_at))))))))))))), rest);
    }

    fn put(&self, out: &mut Vec<u8>) {
        let ghost v = self.deep_view();
        let ghost before = out@;
        self.order_id.put(out);
        self.exchange_order_id.put(out);
        self.symbol.put(out);
        self.side.put(out);
        self.order_type.put(out);
        self.price.put(out);
        self.put_amounts(out);
        assert(out@ =~= before + Self::enc(v));
    }

    fn get(data: &[u8], pos: usize) -> (r: Result<(LiveOrder, usize), String>) {
        match <(OrderId, (Option<String>, (Symbol, (Side, (OrderType, (Price, (Qty, (Qty, (Qty, (TimeInForce, (Venue, (OrderState, (u64, u64)))))))))))))>::get(data, pos) {
            Err(e) => Err(e),
            Ok(((order_id, (exchange_order_id, (symbol, (side, (order_type, (price, (original_qty, (filled_qty, (remaining_qty, (time_in_force, (venue, (state, (created_at, updated_at))))))))))))), next)) => {
                Ok((LiveOrder { order_id, exchange_order_id, symbol, side, order_type, price, original_qty, filled_qty, remaining_qty, time_in_force, venue, state, created_at, updated_at }, next))
            },
        }
    }
}

/// The states are numbered from zero in the order of an order's life.
pub proof fn states_are_numbered(state: OrderState)
    ensures
        OrderState::enc(state) == vstd::bytes::spec_u32_to_le_bytes(
            match state {
                OrderState::New => 0,
                OrderState::Ack => 1,
                OrderState::PartialFill => 2,
                OrderState::Filled => 3,
                OrderState::Canceled => 4,
                OrderState::Rejected => 5,
            },
        ),
{
}

/// Clearing out drops the orders that are filled, cancelled or rejected, and keeps all others as
/// they are; ids go on from where they were.
pub proof fn ended_orders_are_cleared_out(state: EngineView, id: Seq<char>)
    ensures
        ({
            let after = state.collected();
            let s = state.orders[id].state;
            &&& after.orders.contains_key(id) <==> state.orders.contains_key(id) && s
                != OrderState::Filled && s != OrderState::Canceled && s != OrderState::Rejected
            &&& after.orders.contains_key(id) ==> after.orders[id] == state.orders[id]
            &&& after.next_local_id == state.next_local_id
        }),
{
}

} // verus!
