//! Orders of a node: placing them, closing them, and accounting for what the gateway reports.
use vstd::prelude::*;

use crate::dashboard::{KILL_CANCEL_ALL, KILL_DISCONNECT, KILL_STOP_ALL};
use crate::error::AtomicError;
use crate::event::{
    Event, EventPayload, EventPayloadView, EventView, OrderFillEventView,
    OrderNewEvent, OrderNewEventView,
};
use crate::execution;
use crate::execution::{EngineView, ExecutionEngine, LiveOrder, LiveOrderView};
use crate::ledger::{Ledger, LedgerFill};
use crate::log;
use crate::log::EventLog;
use crate::metrics;
use crate::metrics::{PipelineMetrics, StageTimer};
use crate::node::{NodeId, NodeState};
use crate::num;
use crate::risk;
use crate::risk::{RiskEngine, RiskView};
use crate::types;
use crate::types::{OrderType, Price, Qty, Side, Symbol, TimeInForce, Venue};

verus! {

/// An order that a strategy asks for.
#[derive(Debug)]
pub struct OrderIntent {
    pub symbol: Symbol,
    pub side: Side,
    pub order_type: OrderType,
    pub price: Price,
    pub qty: Qty,
    pub time_in_force: TimeInForce,
    pub venue: Venue,
}

/// The engine after an order was placed: it has the next local id, and was created at a time.
pub open spec fn with_order(engine: EngineView, intent: OrderIntent, ts: u64) -> EngineView {
    let next = EngineView { next_local_id: (engine.next_local_id + 1) as u64, ..engine };
    match next.registered(
        LiveOrderView::created(
            types::order_id_text(intent.venue, engine.next_local_id as nat),
            intent.symbol@,
            intent.side,
            intent.order_type,
            intent.price,
            intent.qty,
            intent.time_in_force,
            intent.venue,
            ts,
        ),
    ) {
        Ok(registered) => registered,
        Err(_) => next,
    }
}

/// The event of an order that was placed.
pub open spec fn new_order_event(
    engine: EngineView,
    intent: OrderIntent,
    seq: u64,
    now: u64,
    source: Seq<u8>,
) -> EventView {
    EventView {
        seq,
        timestamp: now,
        source,
        payload: EventPayloadView::OrderNew(
            OrderNewEventView {
                order_id: types::order_id_text(intent.venue, engine.next_local_id as nat),
                symbol: intent.symbol@,
                side: intent.side,
                order_type: intent.order_type,
                price: intent.price,
                qty: intent.qty,
                time_in_force: intent.time_in_force,
                venue: intent.venue,
            },
        ),
    }
}

/// Places an order, unless the risk engine refuses it. The order gets the next id, counts as
/// open, and leads to an event; a refused one changes nothing but what the risk check changes.
/// A node that has halted places no order, and nothing changes.
pub fn place_order(
    intent: &OrderIntent,
    engine: &mut ExecutionEngine,
    risk_engine: &mut RiskEngine,
    ledger: &Ledger,
    counters: &mut PipelineMetrics,
    event_ts: u64,
    seq: u64,
    now: u64,
    source: NodeId,
    state: NodeState,
) -> (r: Result<Event, AtomicError>)
    requires
        old(engine).wf(),
        old(engine)@.next_local_id < u64::MAX,
        ledger.position_fits(),
        old(risk_engine)@.checkable(
            intent.side,
            intent.qty,
            intent.price,
            ledger.position_view(intent.symbol@),
            event_ts,
        ),
    ensures
        final(engine).wf(),
        if state.halted() {
            &&& r matches Err(AtomicError::ConsensusFailed(why)) && why@ == "state diverged"@
            &&& final(engine)@ == old(engine)@
            &&& final(risk_engine)@ == old(risk_engine)@
            &&& final(counters).counters() == old(counters).counters()
            &&& final(counters).histograms() == old(counters).histograms()
        } else {
            let (refusal, checked) = old(risk_engine)@.checked(
                intent.side,
                intent.qty,
                intent.price,
                ledger.position_view(intent.symbol@),
                event_ts,
            );
            &&& match (r, refusal) {
                (Ok(event), None) => {
                    &&& event@ == new_order_event(old(engine)@, *intent, seq, now, source@)
                    &&& final(engine)@ == with_order(old(engine)@, *intent, event_ts)
                    &&& final(risk_engine)@ == (RiskView {
                        open_order_count: (checked.open_order_count + 1) as usize,
                        ..checked
                    })
                    &&& final(counters).total_orders == metrics::wrapping_sum(
                        old(counters).total_orders,
                        1,
                    )
                    &&& final(counters).total_rejects == old(counters).total_rejects
                },
                (Err(e), Some(why)) => {
                    &&& risk::says(e, why)
                    &&& final(engine)@ == old(engine)@
                    &&& final(risk_engine)@ == checked
                    &&& final(counters).total_orders == old(counters).total_orders
                    &&& final(counters).total_rejects == metrics::wrapping_sum(
                        old(counters).total_rejects,
                        1,
                    )
                },
                _ => false,
            }
            &&& final(counters).total_events == old(counters).total_events
            &&& final(counters).total_fills == old(counters).total_fills
            &&& final(counters).sequence_gaps == old(counters).sequence_gaps
            &&& final(counters).histograms() == old(counters).histograms().update(
                4,
                final(counters).risk_check@,
            )
            &&& exists|ns: u64|
                final(counters).risk_check@ == #[trigger] old(counters).risk_check@.recorded(ns)
        },
{
    if state.is_halted() {
        return Err(AtomicError::ConsensusFailed("state diverged".to_string()));
    }
    let position = ledger.position(&intent.symbol);
    let timer = StageTimer::start();
    let checked = match &position {
        Some(p) => risk_engine.check_order(
            &intent.symbol,
            intent.side,
            intent.qty,
            intent.price,
            Some(p),
            event_ts,
        ),
        None => risk_engine.check_order(
            &intent.symbol,
            intent.side,
            intent.qty,
            intent.price,
            None,
            event_ts,
        ),
    };
    timer.stop(&mut counters.risk_check);
    assert(counters.histograms() =~= old(counters).histograms().update(4, counters.risk_check@));
    if let Err(e) = checked {
        metrics::bump(&mut counters.total_rejects);
        return Err(e);
    }
    let order_id = engine.next_order_id(intent.venue);
    let live = LiveOrder::new(
        order_id.clone(),
        intent.symbol.clone(),
        intent.side,
        intent.order_type,
        intent.price,
        intent.qty,
        intent.time_in_force,
        intent.venue,
        event_ts,
    );
    let _ = engine.register_order(live);
    risk_engine.on_order_opened();
    metrics::bump(&mut counters.total_orders);
    Ok(
        Event::new(
            seq,
            now,
            source,
            EventPayload::OrderNew(
                OrderNewEvent {
                    order_id,
                    symbol: intent.symbol.clone(),
                    side: intent.side,
                    order_type: intent.order_type,
                    price: intent.price,
                    qty: intent.qty,
                    time_in_force: intent.time_in_force,
                    venue: intent.venue,
                },
            ),
        ),
    )
}

/// An order that was placed is open in the engine, and one more order counts as open, within the
/// limit.
pub proof fn placed_orders_are_open(
    engine: EngineView,
    risk_state: RiskView,
    intent: OrderIntent,
    position: Option<types::PositionView>,
    ts: u64,
)
    requires
        engine.next_local_id < u64::MAX,
        !engine.orders.contains_key(
            types::order_id_text(intent.venue, engine.next_local_id as nat),
        ),
        risk_state.checked(intent.side, intent.qty, intent.price, position, ts).0 is None,
    ensures
        ({
            let id = types::order_id_text(intent.venue, engine.next_local_id as nat);
            let after = with_order(engine, intent, ts);
            &&& after.orders.contains_key(id)
            &&& !after.orders[id].state.terminal()
            &&& after.orders[id].remaining_qty == intent.qty
        }),
        risk_state.open_order_count + 1 <= risk_state.limits.max_open_orders,
{
}

/// How many orders of an engine have not ended.
pub open spec fn open_count(engine: EngineView) -> nat {
    execution::orders_where(engine.orders, |o: LiveOrderView| !o.state.terminal()).dom().len()
}

/// The risk engine after a number of orders was closed.
pub open spec fn with_closed(state: RiskView, n: nat) -> RiskView {
    RiskView { open_order_count: num::max(state.open_order_count - n, 0) as usize, ..state }
}

/// Counts all open orders of the engine as closed.
fn close_open_orders(engine: &ExecutionEngine, risk_engine: &mut RiskEngine)
    requires
        engine.wf(),
    ensures
        final(risk_engine)@ == with_closed(old(risk_engine)@, open_count(engine@)),
{
    let ids = engine.open_order_ids();
    let n: usize = ids.len();
    proof {
        ids.deep_view().unique_seq_to_set();
    }
    let mut i: usize = 0;
    while i < n
        invariant
            i <= n,
            risk_engine@ == with_closed(old(risk_engine)@, i as nat),
        decreases n - i,
    {
        risk_engine.on_order_closed();
        i += 1;
    }
}

/// Cancels all orders: at the exchange where there is a gateway, else by counting them as
/// closed. Says whether the exchange is to be asked.
pub fn cancel_all(has_gateway: bool, engine: &ExecutionEngine, risk_engine: &mut RiskEngine) -> (r:
    bool)
    requires
        engine.wf(),
    ensures
        r == has_gateway,
        final(risk_engine)@ == (if has_gateway {
            old(risk_engine)@
        } else {
            with_closed(old(risk_engine)@, open_count(engine@))
        }),
{
    if !has_gateway {
        close_open_orders(engine, risk_engine);
    }
    has_gateway
}

/// Whether a number is a kill action.
pub open spec fn is_kill_action(action: u8) -> bool {
    action == KILL_STOP_ALL || action == KILL_CANCEL_ALL || action == KILL_DISCONNECT
}

/// The risk engine after a kill action.
pub open spec fn after_kill(
    state: RiskView,
    action: u8,
    has_gateway: bool,
    engine: EngineView,
) -> RiskView {
    let switched = RiskView { killed: state.killed || action == KILL_STOP_ALL, ..state };
    if is_kill_action(action) && !has_gateway {
        with_closed(switched, open_count(engine))
    } else {
        switched
    }
}

/// Carries out a kill action of the dashboard. Every action cancels all orders; stopping also
/// turns the kill switch on. Says whether the exchange is to be asked to cancel all orders.
pub fn apply_kill_action(
    action: u8,
    has_gateway: bool,
    engine: &ExecutionEngine,
    risk_engine: &mut RiskEngine,
) -> (r: bool)
    requires
        engine.wf(),
    ensures
        r == (is_kill_action(action) && has_gateway),
        final(risk_engine)@ == after_kill(old(risk_engine)@, action, has_gateway, engine@),
{
    if action == KILL_STOP_ALL {
        risk_engine.activate_kill_switch("manual STOP ALL from dashboard");
    }
    if action == KILL_STOP_ALL || action == KILL_CANCEL_ALL || action == KILL_DISCONNECT {
        cancel_all(has_gateway, engine, risk_engine)
    } else {
        false
    }
}

/// After a stop every order is refused.
pub proof fn stopping_refuses_orders(
    state: RiskView,
    has_gateway: bool,
    engine: EngineView,
    side: Side,
    qty: Qty,
    price: Price,
    position: Option<types::PositionView>,
    now: u64,
)
    ensures
        after_kill(state, KILL_STOP_ALL, has_gateway, engine).checked(
            side,
            qty,
            price,
            position,
            now,
        ).0 is Some,
{
    risk::halted_refuses_all(
        after_kill(state, KILL_STOP_ALL, has_gateway, engine),
        side,
        qty,
        price,
        position,
        now,
    );
}

/// Whether the node is to buy again: on the test network, once it holds nothing.
pub open spec fn reseeds(ledger: Ledger, testnet: bool, has_gateway: bool) -> bool {
    ledger.position_qty == 0 && testnet && has_gateway
}

/// Whether the node is to buy again.
pub fn is_reseed_due(ledger: &Ledger, testnet: bool, has_gateway: bool) -> (r: bool)
    ensures
        r == reseeds(*ledger, testnet, has_gateway),
{
    ledger.position_qty == 0 && testnet && has_gateway
}

/// A reported fill, for the ledger.
pub open spec fn ledger_fill(fill: OrderFillEventView, entry_value: i64) -> LedgerFill {
    LedgerFill { side: fill.side, price: fill.price, qty: fill.qty, fee: fill.fee, entry_value }
}

/// The fill that an event reports.
pub open spec fn fill_in(event: EventView) -> Option<OrderFillEventView> {
    match event.payload {
        EventPayloadView::OrderFill(fill) | EventPayloadView::OrderPartialFill(fill) => Some(fill),
        _ => None,
    }
}

/// Whether an event says that an order ended without a fill.
pub open spec fn ends_order(event: EventView) -> bool {
    event.payload is OrderReject || event.payload is OrderCancel
}

/// The risk engine after an event of the gateway: fills, rejections and cancellations close an
/// order, and fills are settled.
pub open spec fn risk_after(
    state: RiskView,
    ledger: Ledger,
    event: EventView,
    entry_value: i64,
    divisor: i64,
) -> RiskView {
    match fill_in(event) {
        Some(fill) => ledger.settled(
            with_closed(state, 1),
            ledger_fill(fill, entry_value),
            divisor,
        ),
        None => if ends_order(event) {
            with_closed(state, 1)
        } else {
            state
        },
    }
}

/// Accounts for an event of the gateway: in the engine, the log, the counters, the risk engine
/// and the ledger. For a fill it returns what that is worth; `entry_value` is what the part of
/// the position that the fill closes is worth at its average entry price. A node that has halted
/// takes no event, and nothing changes.
pub fn on_gateway_event(
    event: &Event,
    engine: &mut ExecutionEngine,
    event_log: &mut EventLog,
    risk_engine: &mut RiskEngine,
    ledger: &mut Ledger,
    counters: &mut PipelineMetrics,
    entry_value: i64,
    divisor: i64,
    state: NodeState,
) -> (r: Option<i64>)
    requires
        old(engine).wf(),
        old(engine)@.fill_fits(event@),
        old(event_log).count() < u64::MAX,
        match fill_in(event@) {
            Some(fill) => old(ledger).settle_fits(
                with_closed(old(risk_engine)@, 1),
                ledger_fill(fill, entry_value),
                divisor,
            ),
            None => true,
        },
    ensures
        final(engine).wf(),
        final(event_log).is_writable() == old(event_log).is_writable(),
        final(event_log).file() == old(event_log).file(),
        if state.halted() {
            &&& r is None
            &&& final(engine)@ == old(engine)@
            &&& final(event_log).buffered() == old(event_log).buffered()
            &&& final(event_log).count() == old(event_log).count()
            &&& final(risk_engine)@ == old(risk_engine)@
            &&& *final(ledger) == *old(ledger)
            &&& final(counters).counters() == old(counters).counters()
        } else {
            &&& final(engine)@ == old(engine)@.after(event@)
            &&& final(event_log).buffered() == old(event_log).buffered() + (if old(
                event_log,
            ).is_writable() {
                log::frame(event@)
            } else {
                Seq::empty()
            })
            &&& final(event_log).count() == old(event_log).count() + (if old(
                event_log,
            ).is_writable() {
                1int
            } else {
                0
            })
            &&& final(risk_engine)@ == risk_after(
                old(risk_engine)@,
                *old(ledger),
                event@,
                entry_value,
                divisor,
            )
            &&& match fill_in(event@) {
                Some(fill) => {
                    &&& *final(ledger) == old(ledger).filled(
                        ledger_fill(fill, entry_value),
                        divisor,
                    )
                    &&& r is Some
                    &&& r->Some_0 == crate::ledger::worth(
                        fill.price,
                        crate::ledger::lots(fill.qty),
                        divisor,
                    )
                },
                None => *final(ledger) == *old(ledger) && r is None,
            }
            &&& final(counters).counters() == (
                old(counters).total_events,
                old(counters).total_orders,
                if fill_in(event@) is Some {
                    metrics::wrapping_sum(old(counters).total_fills, 1)
                } else {
                    old(counters).total_fills
                },
                if event@.payload is OrderReject {
                    metrics::wrapping_sum(old(counters).total_rejects, 1)
                } else {
                    old(counters).total_rejects
                },
                old(counters).sequence_gaps,
            )
        },
        final(counters).histograms() == old(counters).histograms(),
{
    if state.is_halted() {
        return None;
    }
    let _ = engine.process_event(event);
    let _ = event_log.append(event);
    assert(old(event_log).buffered() + Seq::<u8>::empty() =~= old(event_log).buffered());
    match &event.payload {
        EventPayload::OrderFill(fill) | EventPayload::OrderPartialFill(fill) => {
            metrics::bump(&mut counters.total_fills);
            risk_engine.on_order_closed();
            let entry = LedgerFill {
                side: fill.side,
                price: fill.price,
                qty: fill.qty,
                fee: fill.fee,
                entry_value,
            };
            Some(ledger.settle(risk_engine, &entry, divisor))
        },
        EventPayload::OrderReject(_) => {
            metrics::bump(&mut counters.total_rejects);
            risk_engine.on_order_closed();
            None
        },
        EventPayload::OrderCancel(_) => {
            risk_engine.on_order_closed();
            None
        },
        _ => None,
    }
}

/// A placed order is tracked under the venue's name and the next local number, as it was intended
/// and with nothing filled; the number is used up and no other order changes. Where that id is
/// taken, only the number is used up.
pub proof fn placed_orders_are_tracked(
    engine: EngineView,
    intent: OrderIntent,
    ts: u64,
    other: Seq<char>,
)
    requires
        engine.next_local_id < u64::MAX,
    ensures
        ({
            let after = with_order(engine, intent, ts);
            let id = intent.venue.name() + "-"@ + crate::text::decimal(
                engine.next_local_id as nat,
            );
            let o = after.orders[id];
            &&& after.next_local_id == engine.next_local_id + 1
            &&& after.orders.contains_key(id)
            &&& engine.orders.contains_key(id) ==> after.orders == engine.orders
            &&& !engine.orders.contains_key(id) ==> {
                &&& o.order_id == id && o.state == execution::OrderState::New
                &&& o.symbol == intent.symbol@ && o.side == intent.side
                &&& o.order_type == intent.order_type && o.price == intent.price
                &&& o.original_qty == intent.qty && o.remaining_qty == intent.qty
                &&& o.filled_qty.0 == 0 && o.exchange_order_id is None
                &&& o.time_in_force == intent.time_in_force && o.venue == intent.venue
                &&& o.created_at == ts && o.updated_at == ts
            }
            &&& other != id ==> after.orders.contains_key(other) == engine.orders.contains_key(
                other,
            )
            &&& other != id && engine.orders.contains_key(other) ==> after.orders[other]
                == engine.orders[other]
        }),
{
}

/// The event that tells the others of a placed order makes them track the same order: a replica
/// with the same orders has the same orders afterwards.
pub proof fn replicas_track_placed_orders(
    engine: EngineView,
    replica: EngineView,
    intent: OrderIntent,
    seq: u64,
    now: u64,
    source: Seq<u8>,
)
    requires
        engine.next_local_id < u64::MAX,
        replica.orders == engine.orders,
    ensures
        replica.after(new_order_event(engine, intent, seq, now, source)).orders == with_order(
            engine,
            intent,
            now,
        ).orders,
        new_order_event(engine, intent, seq, now, source).seq == seq,
        new_order_event(engine, intent, seq, now, source).timestamp == now,
        new_order_event(engine, intent, seq, now, source).source == source,
{
}

/// Closing orders takes their number from the open ones, down to none, and changes nothing else.
pub proof fn closed_orders_are_no_longer_open(state: RiskView, n: nat)
    ensures
        ({
            let after = with_closed(state, n);
            &&& n <= state.open_order_count ==> after.open_order_count + n
                == state.open_order_count
            &&& n > state.open_order_count ==> after.open_order_count == 0
            &&& after.killed == state.killed && after.limits == state.limits
            &&& after.total_pnl == state.total_pnl && after.peak_pnl == state.peak_pnl
            &&& after.circuit_breaker == state.circuit_breaker
            &&& after.order_timestamps == state.order_timestamps
            &&& after.consecutive_losses == state.consecutive_losses
            &&& after.current_spread == state.current_spread
        }),
{
}

/// Of the three kill actions only the first, to stop all, turns the kill switch on. Without a
/// gateway each closes the open orders at once; with one, and for any other number, they stay open
/// until the exchange says otherwise.
pub proof fn kill_actions(state: RiskView, action: u8, has_gateway: bool, engine: EngineView)
    ensures
        ({
            let after = after_kill(state, action, has_gateway, engine);
            &&& after.killed <==> state.killed || action == 1
            &&& !has_gateway && 1 <= action <= 3 ==> after.open_order_count + num::min(
                state.open_order_count as int,
                open_count(engine) as int,
            ) == state.open_order_count
            &&& has_gateway || action == 0 || action > 3 ==> after.open_order_count
                == state.open_order_count
            &&& after.total_pnl == state.total_pnl && after.limits == state.limits
            &&& after.circuit_breaker == state.circuit_breaker
        }),
{
}

/// The open orders are those that are new, acknowledged or filled in part.
pub proof fn open_orders_have_not_ended(engine: EngineView, id: Seq<char>)
    ensures
        ({
            let open = execution::orders_where(
                engine.orders,
                |o: LiveOrderView| !o.state.terminal(),
            ).dom();
            let state = engine.orders[id].state;
            &&& open_count(engine) == open.len()
            &&& open.contains(id) <==> engine.orders.contains_key(id) && (state
                == execution::OrderState::New || state == execution::OrderState::Ack || state
                == execution::OrderState::PartialFill)
        }),
{
}

/// What the gateway reports of an order: a fill, a rejection or a cancellation takes one from the
/// open orders. A fill also settles what it earned, and the others leave profit and loss alone. Any
/// other event changes nothing.
pub proof fn gateway_events_close_orders(
    state: RiskView,
    ledger: Ledger,
    event: EventView,
    entry_value: i64,
    divisor: i64,
)
    ensures
        ({
            let after = risk_after(state, ledger, event, entry_value, divisor);
            let filled = event.payload is OrderFill || event.payload is OrderPartialFill;
            let ended = event.payload is OrderReject || event.payload is OrderCancel;
            &&& filled || ended ==> after.open_order_count == (if state.open_order_count > 0 {
                state.open_order_count - 1
            } else {
                0
            })
            &&& !filled ==> after.total_pnl == state.total_pnl && after.peak_pnl == state.peak_pnl
                && after.consecutive_losses == state.consecutive_losses && after.circuit_breaker
                == state.circuit_breaker
            &&& !filled && !ended ==> after == state
            &&& fill_in(event) is Some <==> filled
            &&& event.payload is OrderFill ==> fill_in(event) == Some(event.payload->OrderFill_0)
            &&& event.payload is OrderPartialFill ==> fill_in(event) == Some(
                event.payload->OrderPartialFill_0,
            )
        }),
{
}

/// A fill of the gateway settles as a fill of the ledger with its side, price, quantity and fee.
pub proof fn fills_reach_the_ledger(
    state: RiskView,
    ledger: Ledger,
    fill: OrderFillEventView,
    event: EventView,
    entry_value: i64,
    divisor: i64,
)
    requires
        event.payload == EventPayloadView::OrderFill(fill) || event.payload
            == EventPayloadView::OrderPartialFill(fill),
        ledger.settle_fits(
            with_closed(state, 1),
            LedgerFill {
                side: fill.side,
                price: fill.price,
                qty: fill.qty,
                fee: fill.fee,
                entry_value,
            },
            divisor,
        ),
    ensures
        risk_after(state, ledger, event, entry_value, divisor).total_pnl == ledger.filled(
            LedgerFill {
                side: fill.side,
                price: fill.price,
                qty: fill.qty,
                fee: fill.fee,
                entry_value,
            },
            divisor,
        ).realized_pnl,
{
}

/// The account is seeded again only on the test network, through a gateway, and where nothing is
/// held.
pub proof fn only_flat_test_accounts_are_reseeded(ledger: Ledger, testnet: bool, has_gateway: bool)
    ensures
        ledger.position_qty != 0 ==> !reseeds(ledger, testnet, has_gateway),
        !reseeds(ledger, false, has_gateway),
        !reseeds(ledger, testnet, false),
        ledger.position_qty == 0 ==> reseeds(ledger, true, true),
{
}

} // verus!
