//! Orders, fills and the position of a backtest.
use vstd::prelude::*;
use vstd::string::*;

use crate::event::{
    Event, EventPayload, EventPayloadView, EventView, OrderNewEvent, OrderNewEventView,
};
use crate::execution;
use crate::execution::{EngineView, ExecutionEngine, LiveOrderView, StateVerifier};
use crate::hotpath::{HpCmdTag, HpCommand, HpResult};
use crate::ledger;
use crate::ledger::Ledger;
use crate::metrics;
use crate::metrics::PipelineMetrics;
use crate::node::NodeId;
use crate::num;
use crate::replay;
use crate::text;
use crate::trading;
use crate::types;
use crate::types::{OrderId, OrderType, Price, Qty, Side, Symbol, SymbolView, TimeInForce, Venue};

verus! {

/// What the simulated exchange is asked to do.
#[derive(Debug)]
pub enum SimulatedAction {
    /// Take an order.
    Submit(OrderNewEvent),
    /// Cancel orders.
    Cancel(Vec<OrderId>),
}

/// The contents of a [`SimulatedAction`].
#[verifier::ext_equal]
pub enum SimulatedActionView {
    Submit(OrderNewEventView),
    Cancel(Set<Seq<char>>),
}

impl View for SimulatedAction {
    type V = SimulatedActionView;

    open spec fn view(&self) -> SimulatedActionView {
        match self {
            SimulatedAction::Submit(order) => SimulatedActionView::Submit(order@),
            SimulatedAction::Cancel(ids) => SimulatedActionView::Cancel(ids.deep_view().to_set()),
        }
    }
}

impl DeepView for SimulatedAction {
    type V = SimulatedActionView;

    open spec fn deep_view(&self) -> SimulatedActionView {
        self@
    }
}

/// Where orders of a backtest come from: the event that led to them, and their symbol.
pub struct BacktestTick {
    pub seq: u64,
    pub timestamp: u64,
    pub symbol: Symbol,
    pub source: NodeId,
}

/// The order for a quote of the native engine.
pub open spec fn quoted_order(
    engine: EngineView,
    symbol: SymbolView,
    side: Side,
    cmd: HpCommand,
) -> OrderNewEventView {
    OrderNewEventView {
        order_id: types::order_id_text(Venue::Simulated, engine.next_local_id as nat),
        symbol,
        side,
        order_type: OrderType::Limit,
        price: Price(cmd.price),
        qty: Qty(cmd.qty),
        time_in_force: TimeInForce::GoodTilCancel,
        venue: Venue::Simulated,
    }
}

/// The engine after the order for a quote, which is the command at place `i` of its tick.
pub open spec fn after_quote(
    engine: EngineView,
    tick: BacktestTick,
    side: Side,
    cmd: HpCommand,
    i: int,
) -> EngineView {
    (EngineView { next_local_id: (engine.next_local_id + 1) as u64, ..engine }).after(
        EventView {
            seq: (tick.seq * 1000 + i) as u64,
            timestamp: tick.timestamp,
            source: tick.source@,
            payload: EventPayloadView::OrderNew(
                quoted_order(engine, tick.symbol@, side, cmd),
            ),
        },
    )
}

/// The ids of the orders that have not ended.
pub open spec fn open_ids(engine: EngineView) -> Set<Seq<char>> {
    execution::orders_where(engine.orders, |o: LiveOrderView| !o.state.terminal()).dom()
}

/// The engine after the first `n` commands of a tick, and what the exchange is asked to do.
pub open spec fn ticked(
    engine: EngineView,
    tick: BacktestTick,
    commands: Seq<HpCommand>,
    n: int,
) -> (EngineView, Seq<SimulatedActionView>)
    decreases n,
{
    if n <= 0 {
        (engine, Seq::empty())
    } else {
        let (before, actions) = ticked(engine, tick, commands, n - 1);
        let cmd = commands[n - 1];
        match HpCmdTag::of(cmd.tag) {
            HpCmdTag::PlaceBid => (
                after_quote(before, tick, Side::Buy, cmd, n - 1),
                actions.push(
                    SimulatedActionView::Submit(
                        quoted_order(before, tick.symbol@, Side::Buy, cmd),
                    ),
                ),
            ),
            HpCmdTag::PlaceAsk => (
                after_quote(before, tick, Side::Sell, cmd, n - 1),
                actions.push(
                    SimulatedActionView::Submit(
                        quoted_order(before, tick.symbol@, Side::Sell, cmd),
                    ),
                ),
            ),
            HpCmdTag::CancelAll => (
                before,
                actions.push(SimulatedActionView::Cancel(open_ids(before))),
            ),
            HpCmdTag::Nothing => (before, actions),
        }
    }
}

/// Places the order for a quote in the engine, and returns it.
fn place_quote(engine: &mut ExecutionEngine, tick: &BacktestTick, side: Side, cmd: &HpCommand, i: u64) -> (r:
    OrderNewEvent)
    requires
        old(engine).wf(),
        old(engine)@.next_local_id < u64::MAX,
        tick.seq * 1000 + i <= u64::MAX,
    ensures
        final(engine).wf(),
        final(engine)@ == after_quote(old(engine)@, *tick, side, *cmd, i as int),
        r@ == quoted_order(old(engine)@, tick.symbol@, side, *cmd),
{
    let order_id = engine.next_order_id(Venue::Simulated);
    let order = OrderNewEvent {
        order_id,
        symbol: tick.symbol.clone(),
        side,
        order_type: OrderType::Limit,
        price: Price(cmd.price),
        qty: Qty(cmd.qty),
        time_in_force: TimeInForce::GoodTilCancel,
        venue: Venue::Simulated,
    };
    let event = Event::new(
        tick.seq * 1000 + i,
        tick.timestamp,
        tick.source,
        EventPayload::OrderNew(order.clone()),
    );
    let _ = engine.process_event(&event);
    order
}

/// Registering an order does not change which id is next.
proof fn lemma_next_id(engine: EngineView, tick: BacktestTick, commands: Seq<HpCommand>, n: int)
    requires
        0 <= n,
        engine.next_local_id + n <= u64::MAX,
    ensures
        engine.next_local_id <= ticked(engine, tick, commands, n).0.next_local_id
            <= engine.next_local_id + n,
    decreases n,
{
    if n > 0 {
        lemma_next_id(engine, tick, commands, n - 1);
    }
}

/// How many orders are among what the exchange is asked to do.
pub open spec fn orders_in(actions: Seq<SimulatedActionView>) -> nat
    decreases actions.len(),
{
    if actions.len() == 0 {
        0
    } else {
        orders_in(actions.drop_last()) + if actions.last() is Submit {
            1nat
        } else {
            0
        }
    }
}

/// There are no more orders than commands.
proof fn lemma_few_orders(engine: EngineView, tick: BacktestTick, commands: Seq<HpCommand>, n: int)
    requires
        0 <= n,
    ensures
        orders_in(ticked(engine, tick, commands, n).1) <= n,
    decreases n,
{
    if n > 0 {
        lemma_few_orders(engine, tick, commands, n - 1);
        let before = ticked(engine, tick, commands, n - 1).1;
        let after = ticked(engine, tick, commands, n).1;
        assert(after.len() > before.len() ==> after.drop_last() =~= before);
    }
}

/// Whether an action names no order twice.
pub open spec fn cancels_once(action: SimulatedAction) -> bool {
    action matches SimulatedAction::Cancel(ids) ==> ids.deep_view().no_duplicates()
}

/// Carries out an answer of the native engine in a backtest. Quotes become orders, which are
/// counted, and cancellations reach all open orders; while there is a position, the quotes
/// already made stay as they are.
pub fn run_commands(
    result: &HpResult,
    tick: &BacktestTick,
    position_qty: i64,
    engine: &mut ExecutionEngine,
    counters: &mut PipelineMetrics,
) -> (r: Vec<SimulatedAction>)
    requires
        old(engine).wf(),
        result.count <= 4,
        old(engine)@.next_local_id + 4 <= u64::MAX,
        tick.seq * 1000 + 3 <= u64::MAX,
    ensures
        final(engine).wf(),
        if position_qty == 0 {
            (final(engine)@, r.deep_view()) == ticked(
                old(engine)@,
                *tick,
                result.commands@,
                result.count as int,
            )
        } else {
            final(engine)@ == old(engine)@ && r@.len() == 0
        },
        forall|i: int| 0 <= i < r@.len() ==> #[trigger] cancels_once(r@[i]),
        final(counters).counters() == (
            old(counters).total_events,
            metrics::wrapping_sum(
                old(counters).total_orders,
                orders_in(r.deep_view()) as u64,
            ),
            old(counters).total_fills,
            old(counters).total_rejects,
            old(counters).sequence_gaps,
        ),
        final(counters).histograms() == old(counters).histograms(),
{
    let mut actions: Vec<SimulatedAction> = Vec::new();
    assert(actions.deep_view() =~= Seq::empty());
    if position_qty != 0 {
        return actions;
    }
    let mut i: i32 = 0;
    while i < result.count
        invariant
            0 <= i,
            result.count > 0 ==> i <= result.count,
            result.count <= 0 ==> i == 0,
            result.count <= 4,
            result.commands@.len() == 4,
            engine.wf(),
            old(engine)@.next_local_id + 4 <= u64::MAX,
            tick.seq * 1000 + 3 <= u64::MAX,
            (engine@, actions.deep_view()) == ticked(
                old(engine)@,
                *tick,
                result.commands@,
                i as int,
            ),
            forall|k: int| 0 <= k < actions@.len() ==> #[trigger] cancels_once(actions@[k]),
            orders_in(actions.deep_view()) <= i,
            counters.counters() == (
                old(counters).total_events,
                metrics::wrapping_sum(
                    old(counters).total_orders,
                    orders_in(actions.deep_view()) as u64,
                ),
                old(counters).total_fills,
                old(counters).total_rejects,
                old(counters).sequence_gaps,
            ),
            counters.histograms() == old(counters).histograms(),
        decreases result.count - i,
    {
        let ghost before = actions.deep_view();
        let cmd: HpCommand = result.commands[i as usize];
        proof {
            lemma_few_orders(old(engine)@, *tick, result.commands@, i + 1);
            lemma_next_id(old(engine)@, *tick, result.commands@, i as int);
        }
        match HpCmdTag::from_code(cmd.tag) {
            HpCmdTag::PlaceBid => {
                let order = place_quote(engine, tick, Side::Buy, &cmd, i as u64);
                let ghost o = order@;
                actions.push(SimulatedAction::Submit(order));
                assert(actions.deep_view() =~= before.push(SimulatedActionView::Submit(o)));
                assert(actions.deep_view().drop_last() =~= before);
                metrics::bump(&mut counters.total_orders);
            },
            HpCmdTag::PlaceAsk => {
                let order = place_quote(engine, tick, Side::Sell, &cmd, i as u64);
                let ghost o = order@;
                actions.push(SimulatedAction::Submit(order));
                assert(actions.deep_view() =~= before.push(SimulatedActionView::Submit(o)));
                assert(actions.deep_view().drop_last() =~= before);
                metrics::bump(&mut counters.total_orders);
            },
            HpCmdTag::CancelAll => {
                let ids = engine.open_order_ids();
                let ghost set = ids.deep_view().to_set();
                assert(set =~= open_ids(engine@));
                actions.push(SimulatedAction::Cancel(ids));
                assert(actions.deep_view() =~= before.push(SimulatedActionView::Cancel(set)));
                assert(actions.deep_view().drop_last() =~= before);
            },
            HpCmdTag::Nothing => {},
        }
        i += 1;
    }
    actions
}

/// The symbol of market data, or a default for other events.
pub open spec fn market_symbol(payload: EventPayloadView, default: SymbolView) -> SymbolView {
    match payload {
        EventPayloadView::OrderBookUpdate(update) => update.symbol,
        EventPayloadView::Trade(trade) => trade.symbol,
        _ => default,
    }
}

/// The symbol of the orders that an event leads to.
pub fn order_symbol(payload: &EventPayload, default: &Symbol) -> (r: Symbol)
    ensures
        r@ == market_symbol(payload@, default@),
{
    match payload {
        EventPayload::OrderBookUpdate(update) => update.symbol.clone(),
        EventPayload::Trade(trade) => trade.symbol.clone(),
        _ => default.clone(),
    }
}

/// What a fill does to a position: how much of it is closed, how much is opened, and the
/// position afterwards.
#[derive(Debug, Clone, Copy, PartialEq, Eq, Structural)]
pub struct FillSplit {
    pub closed: i64,
    pub opened: i64,
    pub position: i64,
}

/// A ledger with a position and nothing else.
pub open spec fn holding(position_qty: i64) -> Ledger {
    Ledger { position_qty, cost_basis: 0, realized_pnl: 0, last_flat_pnl: 0 }
}

/// How much of a position a fill closes.
pub open spec fn closed_qty(position_qty: i64, side: Side, qty: Qty) -> int {
    holding(position_qty).closed_part(side, qty)
}

/// A position after a fill.
pub open spec fn position_after(position_qty: i64, side: Side, qty: Qty) -> int {
    match side {
        Side::Buy => position_qty + ledger::lots(qty),
        Side::Sell => position_qty - ledger::lots(qty),
    }
}

/// Whether a position has a magnitude, and stays within 64 bits after a fill.
pub open spec fn split_fits(position_qty: i64, side: Side, qty: Qty) -> bool {
    position_qty > i64::MIN && num::fits_i64(position_after(position_qty, side, qty))
}

/// Whether a position has a magnitude, and stays within 64 bits after a fill.
pub fn is_split_in_range(position_qty: i64, side: Side, qty: Qty) -> (r: bool)
    ensures
        r == split_fits(position_qty, side, qty),
{
    let n: i64 = qty.0 as i64;
    let after: i128 = match side {
        Side::Buy => position_qty as i128 + n as i128,
        Side::Sell => position_qty as i128 - n as i128,
    };
    position_qty > i64::MIN && i64::MIN as i128 <= after && after <= i64::MAX as i128
}

/// What a fill does to a position: it closes before it opens.
pub fn split_fill(position_qty: i64, side: Side, qty: Qty) -> (r: FillSplit)
    requires
        split_fits(position_qty, side, qty),
    ensures
        r.closed == closed_qty(position_qty, side, qty),
        r.opened == ledger::lots(qty) - closed_qty(position_qty, side, qty),
        r.position == position_after(position_qty, side, qty),
{
    let held = Ledger { position_qty, cost_basis: 0, realized_pnl: 0, last_flat_pnl: 0 };
    let closed: i64 = held.closing_qty(side, qty);
    let n: i64 = qty.0 as i64;
    let position: i64 = match side {
        Side::Buy => position_qty + n,
        Side::Sell => position_qty - n,
    };
    FillSplit { closed, opened: n - closed, position }
}

/// What a fill closes comes off the magnitude of the position and what it opens is added; where
/// it opens something against the position, it has closed all of it.
pub proof fn fills_close_before_they_open(position_qty: i64, side: Side, qty: Qty)
    requires
        qty.0 <= i64::MAX,
    ensures
        ({
            let closed = closed_qty(position_qty, side, qty);
            let opened = ledger::lots(qty) - closed;
            &&& 0 <= closed <= num::abs(position_qty as int)
            &&& opened >= 0
            &&& num::abs(position_after(position_qty, side, qty)) == num::abs(position_qty as int)
                - closed + opened
            &&& holding(position_qty).closes(side) && opened > 0 ==> closed == num::abs(
                position_qty as int,
            )
        }),
{
}

/// Applies an event of the simulated exchange, and says whether it was a fill.
pub fn on_simulated_event(
    event: &Event,
    engine: &mut ExecutionEngine,
    counters: &mut PipelineMetrics,
) -> (r: bool)
    requires
        old(engine).wf(),
        old(engine)@.fill_fits(event@),
    ensures
        final(engine).wf(),
        final(engine)@ == old(engine)@.after(event@),
        r == (trading::fill_in(event@) is Some),
        final(counters).counters() == (
            old(counters).total_events,
            old(counters).total_orders,
            if r {
                metrics::wrapping_sum(old(counters).total_fills, 1)
            } else {
                old(counters).total_fills
            },
            old(counters).total_rejects,
            old(counters).sequence_gaps,
        ),
        final(counters).histograms() == old(counters).histograms(),
{
    let _ = engine.process_event(event);
    match &event.payload {
        EventPayload::OrderFill(_) | EventPayload::OrderPartialFill(_) => {
            metrics::bump(&mut counters.total_fills);
            true
        },
        _ => false,
    }
}

/// A point of the equity curve: the event behind a fill, the realized profit and loss as text,
/// and the position.
#[derive(Debug)]
pub struct EquityPoint {
    pub seq: u64,
    pub pnl: String,
    pub position_qty: i64,
}

/// An equity curve as comma-separated values: a header, then a line for each point.
pub open spec fn equity_text(points: Seq<EquityPoint>) -> Seq<char>
    decreases points.len(),
{
    if points.len() == 0 {
        "seq,realized_pnl_usd,position_qty\n"@
    } else {
        let p = points.last();
        equity_text(points.drop_last()) + text::decimal(p.seq as nat) + ","@ + p.pnl@ + ","@
            + text::signed_decimal(p.position_qty as int) + "\n"@
    }
}

/// An equity curve as comma-separated values.
pub fn equity_csv(points: &Vec<EquityPoint>) -> (r: String)
    ensures
        r@ == equity_text(points@),
{
    let mut out = "seq,realized_pnl_usd,position_qty\n".to_owned();
    let mut i: usize = 0;
    assert(points@.take(0) =~= Seq::empty());
    while i < points.len()
        invariant
            i <= points@.len(),
            out@ == equity_text(points@.take(i as int)),
        decreases points.len() - i,
    {
        proof {
            assert(points@.take(i + 1).drop_last() =~= points@.take(i as int));
            assert(points@.take(i + 1).last() == points@[i as int]);
        }
        let p = &points[i];
        text::push_u64(&mut out, p.seq);
        out.append(",");
        out.append(p.pnl.as_str());
        out.append(",");
        text::push_i64(&mut out, p.position_qty);
        out.append("\n");
        i += 1;
    }
    assert(points@.take(i as int) =~= points@);
    out
}

/// Ends a tick: counts it, and has the state verified where enough ticks have passed.
pub fn end_tick(
    seq: u64,
    engine: &ExecutionEngine,
    verifier: &mut StateVerifier,
    counters: &mut PipelineMetrics,
)
    requires
        engine.wf(),
        old(verifier)@.events_since_verify < u64::MAX,
    ensures
        final(verifier)@ == replay::verifier_step(old(verifier)@, seq, engine@.hash()),
        final(counters).counters() == (
            metrics::wrapping_sum(old(counters).total_events, 1),
            old(counters).total_orders,
            old(counters).total_fills,
            old(counters).total_rejects,
            old(counters).sequence_gaps,
        ),
        final(counters).histograms() == old(counters).histograms(),
{
    metrics::bump(&mut counters.total_events);
    let _ = replay::verify_step(seq, engine, verifier);
}

/// A quote of the native engine becomes a limit order on the simulated venue that stays until
/// cancelled, at its price and for its quantity, under the next local number, which is used up; it
/// is tracked as new.
pub proof fn quotes_become_orders(
    engine: EngineView,
    tick: BacktestTick,
    side: Side,
    cmd: HpCommand,
    i: int,
)
    requires
        engine.next_local_id < u64::MAX,
        !engine.orders.contains_key(
            types::order_id_text(Venue::Simulated, engine.next_local_id as nat),
        ),
    ensures
        ({
            let order = quoted_order(engine, tick.symbol@, side, cmd);
            let after = after_quote(engine, tick, side, cmd, i);
            let o = after.orders[order.order_id];
            &&& order.price.0 == cmd.price && order.qty.0 == cmd.qty && order.side == side
            &&& order.symbol == tick.symbol@ && order.venue == Venue::Simulated
            &&& order.order_type == OrderType::Limit
            &&& order.time_in_force == TimeInForce::GoodTilCancel
            &&& after.next_local_id == engine.next_local_id + 1
            &&& after.orders.contains_key(order.order_id)
            &&& o.state == execution::OrderState::New && o.side == side
            &&& o.price.0 == cmd.price && o.original_qty.0 == cmd.qty && o.filled_qty.0 == 0
            &&& o.created_at == tick.timestamp
            &&& after.orders.remove(order.order_id) == engine.orders
        }),
{
    let id = types::order_id_text(Venue::Simulated, engine.next_local_id as nat);
    let after = after_quote(engine, tick, side, cmd, i);
    assert(after.orders.remove(id) =~= engine.orders);
}

/// Commands are carried out one after the other: one bids with an order to buy, two asks with an
/// order to sell, three cancels all that is open at that moment, and any other number does nothing.
pub proof fn commands_are_carried_out(
    engine: EngineView,
    tick: BacktestTick,
    commands: Seq<HpCommand>,
    n: int,
)
    requires
        n >= 0,
    ensures
        ({
            let (before, actions) = ticked(engine, tick, commands, n);
            let (after, all) = ticked(engine, tick, commands, n + 1);
            let cmd = commands[n];
            &&& n == 0 ==> before == engine && actions.len() == 0
            &&& cmd.tag == 1 ==> all.len() == actions.len() + 1 && all.last() is Submit
                && all.last()->Submit_0.side == Side::Buy && all.last()->Submit_0.price.0
                == cmd.price && all.last()->Submit_0.qty.0 == cmd.qty
            &&& cmd.tag == 2 ==> all.len() == actions.len() + 1 && all.last() is Submit
                && all.last()->Submit_0.side == Side::Sell && all.last()->Submit_0.price.0
                == cmd.price && all.last()->Submit_0.qty.0 == cmd.qty
            &&& cmd.tag == 1 ==> after == after_quote(before, tick, Side::Buy, cmd, n)
            &&& cmd.tag == 2 ==> after == after_quote(before, tick, Side::Sell, cmd, n)
            &&& cmd.tag == 3 ==> after == before && all.len() == actions.len() + 1
                && all.last() is Cancel && forall|id: Seq<char>| #[trigger]
                all.last()->Cancel_0.contains(id) <==> before.orders.contains_key(id) && !(
                before.orders[id].state == execution::OrderState::Filled
                    || before.orders[id].state == execution::OrderState::Canceled
                    || before.orders[id].state == execution::OrderState::Rejected)
            &&& cmd.tag < 1 || cmd.tag > 3 ==> after == before && all == actions
            &&& forall|i: int| 0 <= i < actions.len() ==> all[i] == #[trigger] actions[i]
        }),
{
}

/// The table of equity points is one line for each, in order, with number, profit and loss, and
/// position between commas.
pub proof fn equity_has_a_line_for_each_point(points: Seq<EquityPoint>, p: EquityPoint)
    ensures
        equity_text(points.push(p)) == equity_text(points) + text::decimal(p.seq as nat) + seq![
            ',',
        ] + p.pnl@ + seq![','] + text::signed_decimal(p.position_qty as int) + seq!['\n'],
        equity_text(Seq::empty()) == "seq,realized_pnl_usd,position_qty\n"@,
{
    reveal_strlit(",");
    reveal_strlit("\n");
    assert(","@ =~= seq![',']);
    assert("\n"@ =~= seq!['\n']);
    assert(points.push(p).drop_last() =~= points);
}

/// Of the actions of a tick, each order that is handed in counts once, and cancellations do not.
pub proof fn orders_are_counted(actions: Seq<SimulatedActionView>, action: SimulatedActionView)
    ensures
        orders_in(Seq::empty()) == 0,
        orders_in(actions.push(action)) == orders_in(actions) + match action {
            SimulatedActionView::Submit(_) => 1nat,
            SimulatedActionView::Cancel(_) => 0,
        },
{
    assert(actions.push(action).drop_last() =~= actions);
}

} // verus!
