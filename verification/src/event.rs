//! Events: every state change in the system is one.
use vstd::prelude::*;

use crate::node::{NodeId, NodeRole};
use crate::types::{
    clone_levels, Level, OrderId, OrderType, Price, Qty, Side, Symbol, SymbolView, TimeInForce,
    Venue,
};

verus! {

/// Strictly monotonic global sequence number.
pub type SeqNum = u64;

/// Logical timestamp in nanoseconds.
pub type Timestamp = u64;

/// A full book or a change of some of its levels.
#[derive(Debug)]
pub struct OrderBookUpdateEvent {
    pub symbol: Symbol,
    pub bids: Vec<Level>,
    pub asks: Vec<Level>,
    pub is_snapshot: bool,
    pub exchange_ts: u64,
}

/// The contents of a [`OrderBookUpdateEvent`].
#[verifier::ext_equal]
pub struct OrderBookUpdateEventView {
    pub symbol: SymbolView,
    pub bids: Seq<Level>,
    pub asks: Seq<Level>,
    pub is_snapshot: bool,
    pub exchange_ts: u64,
}

impl View for OrderBookUpdateEvent {
    type V = OrderBookUpdateEventView;

    open spec fn view(&self) -> OrderBookUpdateEventView {
        OrderBookUpdateEventView {
            symbol: self.symbol@,
            bids: self.bids@,
            asks: self.asks@,
            is_snapshot: self.is_snapshot,
            exchange_ts: self.exchange_ts,
        }
    }
}

impl DeepView for OrderBookUpdateEvent {
    type V = OrderBookUpdateEventView;

    open spec fn deep_view(&self) -> OrderBookUpdateEventView {
        self@
    }
}

impl Clone for OrderBookUpdateEvent {
    fn clone(&self) -> (r: Self)
        ensures
            r@ == self@,
    {
        OrderBookUpdateEvent {
            symbol: self.symbol.clone(),
            bids: clone_levels(&self.bids),
            asks: clone_levels(&self.asks),
            is_snapshot: self.is_snapshot,
            exchange_ts: self.exchange_ts,
        }
    }
}

/// A trade on an exchange.
#[derive(Debug)]
pub struct TradeEvent {
    pub symbol: Symbol,
    pub price: Price,
    pub qty: Qty,
    pub side: Side,
    pub exchange_ts: u64,
}

/// The contents of a [`TradeEvent`].
#[verifier::ext_equal]
pub struct TradeEventView {
    pub symbol: SymbolView,
    pub price: Price,
    pub qty: Qty,
    pub side: Side,
    pub exchange_ts: u64,
}

impl View for TradeEvent {
    type V = TradeEventView;

    open spec fn view(&self) -> TradeEventView {
        TradeEventView {
            symbol: self.symbol@,
            price: self.price,
            qty: self.qty,
            side: self.side,
            exchange_ts: self.exchange_ts,
        }
    }
}

impl DeepView for TradeEvent {
    type V = TradeEventView;

    open spec fn deep_view(&self) -> TradeEventView {
        self@
    }
}

impl Clone for TradeEvent {
    fn clone(&self) -> (r: Self)
        ensures
            r@ == self@,
    {
        TradeEvent {
            symbol: self.symbol.clone(),
            price: self.price,
            qty: self.qty,
            side: self.side,
            exchange_ts: self.exchange_ts,
        }
    }
}

/// Best prices, last price and daily volume.
#[derive(Debug)]
pub struct TickerEvent {
    pub symbol: Symbol,
    pub bid: Price,
    pub ask: Price,
    pub last: Price,
    pub volume_24h: Qty,
    pub exchange_ts: u64,
}

/// The contents of a [`TickerEvent`].
#[verifier::ext_equal]
pub struct TickerEventView {
    pub symbol: SymbolView,
    pub bid: Price,
    pub ask: Price,
    pub last: Price,
    pub volume_24h: Qty,
    pub exchange_ts: u64,
}

impl View for TickerEvent {
    type V = TickerEventView;

    open spec fn view(&self) -> TickerEventView {
        TickerEventView {
            symbol: self.symbol@,
            bid: self.bid,
            ask: self.ask,
            last: self.last,
            volume_24h: self.volume_24h,
            exchange_ts: self.exchange_ts,
        }
    }
}

impl DeepView for TickerEvent {
    type V = TickerEventView;

    open spec fn deep_view(&self) -> TickerEventView {
        self@
    }
}

impl Clone for TickerEvent {
    fn clone(&self) -> (r: Self)
        ensures
            r@ == self@,
    {
        TickerEvent {
            symbol: self.symbol.clone(),
            bid: self.bid,
            ask: self.ask,
            last: self.last,
            volume_24h: self.volume_24h,
            exchange_ts: self.exchange_ts,
        }
    }
}

/// An order was created.
#[derive(Debug)]
pub struct OrderNewEvent {
    pub order_id: OrderId,
    pub symbol: Symbol,
    pub side: Side,
    pub order_type: OrderType,
    pub price: Price,
    pub qty: Qty,
    pub time_in_force: TimeInForce,
    pub venue: Venue,
}

/// The contents of a [`OrderNewEvent`].
#[verifier::ext_equal]
pub struct OrderNewEventView {
    pub order_id: Seq<char>,
    pub symbol: SymbolView,
    pub side: Side,
    pub order_type: OrderType,
    pub price: Price,
    pub qty: Qty,
    pub time_in_force: TimeInForce,
    pub venue: Venue,
}

impl View for OrderNewEvent {
    type V = OrderNewEventView;

    open spec fn view(&self) -> OrderNewEventView {
        OrderNewEventView {
            order_id: self.order_id@,
            symbol: self.symbol@,
            side: self.side,
            order_type: self.order_type,
            price: self.price,
            qty: self.qty,
            time_in_force: self.time_in_force,
            venue: self.venue,
        }
    }
}

impl DeepView for OrderNewEvent {
    type V = OrderNewEventView;

    open spec fn deep_view(&self) -> OrderNewEventView {
        self@
    }
}

impl Clone for OrderNewEvent {
    fn clone(&self) -> (r: Self)
        ensures
            r@ == self@,
    {
        OrderNewEvent {
            order_id: self.order_id.clone(),
            symbol: self.symbol.clone(),
            side: self.side,
            order_type: self.order_type,
            price: self.price,
            qty: self.qty,
            time_in_force: self.time_in_force,
            venue: self.venue,
        }
    }
}

/// The exchange accepted an order.
#[derive(Debug)]
pub struct OrderAckEvent {
    pub order_id: OrderId,
    pub exchange_order_id: String,
    pub venue: Venue,
}

/// The contents of a [`OrderAckEvent`].
#[verifier::ext_equal]
pub struct OrderAckEventView {
    pub order_id: Seq<char>,
    pub exchange_order_id: Seq<char>,
    pub venue: Venue,
}

impl View for OrderAckEvent {
    type V = OrderAckEventView;

    open spec fn view(&self) -> OrderAckEventView {
        OrderAckEventView {
            order_id: self.order_id@,
            exchange_order_id: self.exchange_order_id@,
            venue: self.venue,
        }
    }
}

impl DeepView for OrderAckEvent {
    type V = OrderAckEventView;

    open spec fn deep_view(&self) -> OrderAckEventView {
        self@
    }
}

impl Clone for OrderAckEvent {
    fn clone(&self) -> (r: Self)
        ensures
            r@ == self@,
    {
        OrderAckEvent {
            order_id: self.order_id.clone(),
            exchange_order_id: self.exchange_order_id.clone(),
            venue: self.venue,
        }
    }
}

/// An order was filled, in part or in full.
#[derive(Debug)]
pub struct OrderFillEvent {
    pub order_id: OrderId,
    pub symbol: Symbol,
    pub side: Side,
    pub price: Price,
    pub qty: Qty,
    pub remaining: Qty,
    pub fee: i64,
    pub is_maker: bool,
    pub venue: Venue,
}

/// The contents of a [`OrderFillEvent`].
#[verifier::ext_equal]
pub struct OrderFillEventView {
    pub order_id: Seq<char>,
    pub symbol: SymbolView,
    pub side: Side,
    pub price: Price,
    pub qty: Qty,
    pub remaining: Qty,
    pub fee: i64,
    pub is_maker: bool,
    pub venue: Venue,
}

impl View for OrderFillEvent {
    type V = OrderFillEventView;

    open spec fn view(&self) -> OrderFillEventView {
        OrderFillEventView {
            order_id: self.order_id@,
            symbol: self.symbol@,
            side: self.side,
            price: self.price,
            qty: self.qty,
            remaining: self.remaining,
            fee: self.fee,
            is_maker: self.is_maker,
            venue: self.venue,
        }
    }
}

impl DeepView for OrderFillEvent {
    type V = OrderFillEventView;

    open spec fn deep_view(&self) -> OrderFillEventView {
        self@
    }
}

impl Clone for OrderFillEvent {
    fn clone(&self) -> (r: Self)
        ensures
            r@ == self@,
    {
        OrderFillEvent {
            order_id: self.order_id.clone(),
            symbol: self.symbol.clone(),
            side: self.side,
            price: self.price,
            qty: self.qty,
            remaining: self.remaining,
            fee: self.fee,
            is_maker: self.is_maker,
            venue: self.venue,
        }
    }
}

/// An order was cancelled.
#[derive(Debug)]
pub struct OrderCancelEvent {
    pub order_id: OrderId,
    pub reason: String,
    pub venue: Venue,
}

/// The contents of a [`OrderCancelEvent`].
#[verifier::ext_equal]
pub struct OrderCancelEventView {
    pub order_id: Seq<char>,
    pub reason: Seq<char>,
    pub venue: Venue,
}

impl View for OrderCancelEvent {
    type V = OrderCancelEventView;

    open spec fn view(&self) -> OrderCancelEventView {
        OrderCancelEventView {
            order_id: self.order_id@,
            reason: self.reason@,
            venue: self.venue,
        }
    }
}

impl DeepView for OrderCancelEvent {
    type V = OrderCancelEventView;

    open spec fn deep_view(&self) -> OrderCancelEventView {
        self@
    }
}

impl Clone for OrderCancelEvent {
    fn clone(&self) -> (r: Self)
        ensures
            r@ == self@,
    {
        OrderCancelEvent {
            order_id: self.order_id.clone(),
            reason: self.reason.clone(),
            venue: self.venue,
        }
    }
}

/// The exchange refused an order.
#[derive(Debug)]
pub struct OrderRejectEvent {
    pub order_id: OrderId,
    pub reason: String,
    pub venue: Venue,
}

/// The contents of a [`OrderRejectEvent`].
#[verifier::ext_equal]
pub struct OrderRejectEventView {
    pub order_id: Seq<char>,
    pub reason: Seq<char>,
    pub venue: Venue,
}

impl View for OrderRejectEvent {
    type V = OrderRejectEventView;

    open spec fn view(&self) -> OrderRejectEventView {
        OrderRejectEventView {
            order_id: self.order_id@,
            reason: self.reason@,
            venue: self.venue,
        }
    }
}

impl DeepView for OrderRejectEvent {
    type V = OrderRejectEventView;

    open spec fn deep_view(&self) -> OrderRejectEventView {
        self@
    }
}

impl Clone for OrderRejectEvent {
    fn clone(&self) -> (r: Self)
        ensures
            r@ == self@,
    {
        OrderRejectEvent {
            order_id: self.order_id.clone(),
            reason: self.reason.clone(),
            venue: self.venue,
        }
    }
}

/// A node took a snapshot of its state.
#[derive(Debug)]
pub struct SnapshotEvent {
    pub state_hash: [u8; 8],
    pub event_count: u64,
}

/// The contents of a [`SnapshotEvent`].
#[verifier::ext_equal]
pub struct SnapshotEventView {
    pub state_hash: Seq<u8>,
    pub event_count: u64,
}

impl View for SnapshotEvent {
    type V = SnapshotEventView;

    open spec fn view(&self) -> SnapshotEventView {
        SnapshotEventView {
            state_hash: self.state_hash@,
            event_count: self.event_count,
        }
    }
}

impl DeepView for SnapshotEvent {
    type V = SnapshotEventView;

    open spec fn deep_view(&self) -> SnapshotEventView {
        self@
    }
}

impl Clone for SnapshotEvent {
    fn clone(&self) -> (r: Self)
        ensures
            r@ == self@,
    {
        SnapshotEvent {
            state_hash: self.state_hash,
            event_count: self.event_count,
        }
    }
}

/// A node is alive.
#[derive(Debug)]
pub struct HeartbeatEvent {
    pub node_id: NodeId,
    pub uptime_secs: u64,
}

/// The contents of a [`HeartbeatEvent`].
#[verifier::ext_equal]
pub struct HeartbeatEventView {
    pub node_id: Seq<u8>,
    pub uptime_secs: u64,
}

impl View for HeartbeatEvent {
    type V = HeartbeatEventView;

    open spec fn view(&self) -> HeartbeatEventView {
        HeartbeatEventView {
            node_id: self.node_id@,
            uptime_secs: self.uptime_secs,
        }
    }
}

impl DeepView for HeartbeatEvent {
    type V = HeartbeatEventView;

    open spec fn deep_view(&self) -> HeartbeatEventView {
        self@
    }
}

impl Clone for HeartbeatEvent {
    fn clone(&self) -> (r: Self)
        ensures
            r@ == self@,
    {
        HeartbeatEvent {
            node_id: self.node_id,
            uptime_secs: self.uptime_secs,
        }
    }
}

/// A node joined the mesh.
#[derive(Debug)]
pub struct NodeJoinEvent {
    pub node_id: NodeId,
    pub role: NodeRole,
    pub addr: String,
}

/// The contents of a [`NodeJoinEvent`].
#[verifier::ext_equal]
pub struct NodeJoinEventView {
    pub node_id: Seq<u8>,
    pub role: NodeRole,
    pub addr: Seq<char>,
}

impl View for NodeJoinEvent {
    type V = NodeJoinEventView;

    open spec fn view(&self) -> NodeJoinEventView {
        NodeJoinEventView {
            node_id: self.node_id@,
            role: self.role,
            addr: self.addr@,
        }
    }
}

impl DeepView for NodeJoinEvent {
    type V = NodeJoinEventView;

    open spec fn deep_view(&self) -> NodeJoinEventView {
        self@
    }
}

impl Clone for NodeJoinEvent {
    fn clone(&self) -> (r: Self)
        ensures
            r@ == self@,
    {
        NodeJoinEvent {
            node_id: self.node_id,
            role: self.role,
            addr: self.addr.clone(),
        }
    }
}

/// A node left the mesh.
#[derive(Debug)]
pub struct NodeLeaveEvent {
    pub node_id: NodeId,
    pub reason: String,
}

/// The contents of a [`NodeLeaveEvent`].
#[verifier::ext_equal]
pub struct NodeLeaveEventView {
    pub node_id: Seq<u8>,
    pub reason: Seq<char>,
}

impl View for NodeLeaveEvent {
    type V = NodeLeaveEventView;

    open spec fn view(&self) -> NodeLeaveEventView {
        NodeLeaveEventView {
            node_id: self.node_id@,
            reason: self.reason@,
        }
    }
}

impl DeepView for NodeLeaveEvent {
    type V = NodeLeaveEventView;

    open spec fn deep_view(&self) -> NodeLeaveEventView {
        self@
    }
}

impl Clone for NodeLeaveEvent {
    fn clone(&self) -> (r: Self)
        ensures
            r@ == self@,
    {
        NodeLeaveEvent {
            node_id: self.node_id,
            reason: self.reason.clone(),
        }
    }
}

/// A signal of a strategy.
#[derive(Debug)]
pub struct SignalEvent {
    pub strategy_id: String,
    pub symbol: Symbol,
    pub side: Side,
    /// The strength, as the bits of an IEEE 754 double.
    pub strength_bits: u64,
    pub metadata: String,
}

/// The contents of a [`SignalEvent`].
#[verifier::ext_equal]
pub struct SignalEventView {
    pub strategy_id: Seq<char>,
    pub symbol: SymbolView,
    pub side: Side,
    pub strength_bits: u64,
    pub metadata: Seq<char>,
}

impl View for SignalEvent {
    type V = SignalEventView;

    open spec fn view(&self) -> SignalEventView {
        SignalEventView {
            strategy_id: self.strategy_id@,
            symbol: self.symbol@,
            side: self.side,
            strength_bits: self.strength_bits,
            metadata: self.metadata@,
        }
    }
}

impl DeepView for SignalEvent {
    type V = SignalEventView;

    open spec fn deep_view(&self) -> SignalEventView {
        self@
    }
}

impl Clone for SignalEvent {
    fn clone(&self) -> (r: Self)
        ensures
            r@ == self@,
    {
        SignalEvent {
            strategy_id: self.strategy_id.clone(),
            symbol: self.symbol.clone(),
            side: self.side,
            strength_bits: self.strength_bits,
            metadata: self.metadata.clone(),
        }
    }
}

/// What an event says.
#[derive(Debug)]
pub enum EventPayload {
    OrderBookUpdate(OrderBookUpdateEvent),
    Trade(TradeEvent),
    Ticker(TickerEvent),
    OrderNew(OrderNewEvent),
    OrderAck(OrderAckEvent),
    OrderFill(OrderFillEvent),
    OrderPartialFill(OrderFillEvent),
    OrderCancel(OrderCancelEvent),
    OrderReject(OrderRejectEvent),
    Snapshot(SnapshotEvent),
    Heartbeat(HeartbeatEvent),
    NodeJoin(NodeJoinEvent),
    NodeLeave(NodeLeaveEvent),
    Signal(SignalEvent),
}

/// The contents of a [`EventPayload`].
#[verifier::ext_equal]
pub enum EventPayloadView {
    OrderBookUpdate(OrderBookUpdateEventView),
    Trade(TradeEventView),
    Ticker(TickerEventView),
    OrderNew(OrderNewEventView),
    OrderAck(OrderAckEventView),
    OrderFill(OrderFillEventView),
    OrderPartialFill(OrderFillEventView),
    OrderCancel(OrderCancelEventView),
    OrderReject(OrderRejectEventView),
    Snapshot(SnapshotEventView),
    Heartbeat(HeartbeatEventView),
    NodeJoin(NodeJoinEventView),
    NodeLeave(NodeLeaveEventView),
    Signal(SignalEventView),
}

impl View for EventPayload {
    type V = EventPayloadView;

    open spec fn view(&self) -> EventPayloadView {
        match self {
            EventPayload::OrderBookUpdate(x) => EventPayloadView::OrderBookUpdate(x@),
            EventPayload::Trade(x) => EventPayloadView::Trade(x@),
            EventPayload::Ticker(x) => EventPayloadView::Ticker(x@),
            EventPayload::OrderNew(x) => EventPayloadView::OrderNew(x@),
            EventPayload::OrderAck(x) => EventPayloadView::OrderAck(x@),
            EventPayload::OrderFill(x) => EventPayloadView::OrderFill(x@),
            EventPayload::OrderPartialFill(x) => EventPayloadView::OrderPartialFill(x@),
            EventPayload::OrderCancel(x) => EventPayloadView::OrderCancel(x@),
            EventPayload::OrderReject(x) => EventPayloadView::OrderReject(x@),
            EventPayload::Snapshot(x) => EventPayloadView::Snapshot(x@),
            EventPayload::Heartbeat(x) => EventPayloadView::Heartbeat(x@),
            EventPayload::NodeJoin(x) => EventPayloadView::NodeJoin(x@),
            EventPayload::NodeLeave(x) => EventPayloadView::NodeLeave(x@),
            EventPayload::Signal(x) => EventPayloadView::Signal(x@),
        }
    }
}

impl DeepView for EventPayload {
    type V = EventPayloadView;

    open spec fn deep_view(&self) -> EventPayloadView {
        self@
    }
}

impl Clone for EventPayload {
    fn clone(&self) -> (r: Self)
        ensures
            r@ == self@,
    {
        match self {
            EventPayload::OrderBookUpdate(x) => EventPayload::OrderBookUpdate(x.clone()),
            EventPayload::Trade(x) => EventPayload::Trade(x.clone()),
            EventPayload::Ticker(x) => EventPayload::Ticker(x.clone()),
            EventPayload::OrderNew(x) => EventPayload::OrderNew(x.clone()),
            EventPayload::OrderAck(x) => EventPayload::OrderAck(x.clone()),
            EventPayload::OrderFill(x) => EventPayload::OrderFill(x.clone()),
            EventPayload::OrderPartialFill(x) => EventPayload::OrderPartialFill(x.clone()),
            EventPayload::OrderCancel(x) => EventPayload::OrderCancel(x.clone()),
            EventPayload::OrderReject(x) => EventPayload::OrderReject(x.clone()),
            EventPayload::Snapshot(x) => EventPayload::Snapshot(x.clone()),
            EventPayload::Heartbeat(x) => EventPayload::Heartbeat(x.clone()),
            EventPayload::NodeJoin(x) => EventPayload::NodeJoin(x.clone()),
            EventPayload::NodeLeave(x) => EventPayload::NodeLeave(x.clone()),
            EventPayload::Signal(x) => EventPayload::Signal(x.clone()),
        }
    }
}

/// A state change. Events are immutable and ordered by sequence number.
#[derive(Debug)]
pub struct Event {
    /// Global monotonic sequence number, assigned by the sequencer.
    pub seq: SeqNum,
    /// Logical timestamp.
    pub timestamp: Timestamp,
    /// Node that produced this event.
    pub source: NodeId,
    /// What happened.
    pub payload: EventPayload,
}

/// The contents of a [`Event`].
#[verifier::ext_equal]
pub struct EventView {
    pub seq: SeqNum,
    pub timestamp: Timestamp,
    pub source: Seq<u8>,
    pub payload: EventPayloadView,
}

impl View for Event {
    type V = EventView;

    open spec fn view(&self) -> EventView {
        EventView {
            seq: self.seq,
            timestamp: self.timestamp,
            source: self.source@,
            payload: self.payload@,
        }
    }
}

impl DeepView for Event {
    type V = EventView;

    open spec fn deep_view(&self) -> EventView {
        self@
    }
}

impl Clone for Event {
    fn clone(&self) -> (r: Self)
        ensures
            r@ == self@,
    {
        Event {
            seq: self.seq,
            timestamp: self.timestamp,
            source: self.source,
            payload: self.payload.clone(),
        }
    }
}

impl Event {
    /// An event of the given parts.
    pub fn new(seq: SeqNum, timestamp: Timestamp, source: NodeId, payload: EventPayload) -> (r:
        Self)
        ensures
            r@ == (EventView { seq, timestamp, source: source@, payload: payload@ }),
    {
        Event { seq, timestamp, source, payload }
    }
}

/// Copies a list of events.
pub fn clone_events(events: &Vec<Event>) -> (r: Vec<Event>)
    ensures
        r.deep_view() == events.deep_view(),
{
    let mut out: Vec<Event> = Vec::new();
    let mut i: usize = 0;
    while i < events.len()
        invariant
            i <= events@.len(),
            out@.len() == i,
            forall|k: int| 0 <= k < i ==> (#[trigger] out@[k])@ == events@[k]@,
        decreases events.len() - i,
    {
        out.push(events[i].clone());
        i += 1;
    }
    assert(out.deep_view() =~= events.deep_view());
    out
}

} // verus!
