//! Binary encoding of types and events.
use vstd::prelude::*;

use crate::codec;
use crate::codec::Wire;
use crate::event::{
    Event, EventPayload, EventPayloadView, EventView, HeartbeatEvent, HeartbeatEventView,
    NodeJoinEvent, NodeJoinEventView, NodeLeaveEvent, NodeLeaveEventView, OrderAckEvent,
    OrderAckEventView, OrderBookUpdateEvent, OrderBookUpdateEventView, OrderCancelEvent,
    OrderCancelEventView, OrderFillEvent, OrderFillEventView, OrderNewEvent, OrderNewEventView,
    OrderRejectEvent, OrderRejectEventView, SignalEvent, SignalEventView, SnapshotEvent,
    SnapshotEventView, TickerEvent, TickerEventView, TradeEvent, TradeEventView,
};
use crate::node::NodeRole;
use crate::types::{
    Level, OrderId, OrderType, Price, Qty, Side, Symbol, SymbolView, TimeInForce, Venue,
};

verus! {

impl DeepView for Venue {
    type V = Venue;

    open spec fn deep_view(&self) -> Venue {
        *self
    }
}

impl Wire for Venue {
    open spec fn fits(v: Venue) -> bool {
        true
    }

    open spec fn enc(v: Venue) -> Seq<u8> {
        u32::enc(
            match v {
                Venue::Binance => 0u32,
                Venue::Bybit => 1u32,
                Venue::OKX => 2u32,
                Venue::Deribit => 3u32,
                Venue::Coinbase => 4u32,
                Venue::Kraken => 5u32,
                Venue::DYDX => 6u32,
                Venue::Hyperliquid => 7u32,
                Venue::Simulated => 8u32,
            },
        )
    }

    open spec fn dec(s: Seq<u8>) -> Option<(Venue, Seq<u8>)> {
        match u32::dec(s) {
            None => None,
            Some((index, rest)) => match index {
                0 => Some((Venue::Binance, rest)),
                1 => Some((Venue::Bybit, rest)),
                2 => Some((Venue::OKX, rest)),
                3 => Some((Venue::Deribit, rest)),
                4 => Some((Venue::Coinbase, rest)),
                5 => Some((Venue::Kraken, rest)),
                6 => Some((Venue::DYDX, rest)),
                7 => Some((Venue::Hyperliquid, rest)),
                8 => Some((Venue::Simulated, rest)),
                _ => None,
            },
        }
    }

    proof fn round_trip(v: Venue, rest: Seq<u8>) {
        let index: u32 = match v {
            Venue::Binance => 0,
            Venue::Bybit => 1,
            Venue::OKX => 2,
            Venue::Deribit => 3,
            Venue::Coinbase => 4,
            Venue::Kraken => 5,
            Venue::DYDX => 6,
            Venue::Hyperliquid => 7,
            Venue::Simulated => 8,
        };
        u32::round_trip(index, rest);
    }

    fn put(&self, out: &mut Vec<u8>) {
        let index: u32 = match self {
            Venue::Binance => 0,
            Venue::Bybit => 1,
            Venue::OKX => 2,
            Venue::Deribit => 3,
            Venue::Coinbase => 4,
            Venue::Kraken => 5,
            Venue::DYDX => 6,
            Venue::Hyperliquid => 7,
            Venue::Simulated => 8,
        };
        index.put(out);
    }

    fn get(data: &[u8], pos: usize) -> (r: Result<(Venue, usize), String>) {
        match u32::get(data, pos) {
            Err(e) => Err(e),
            Ok((index, next)) => match index {
                0 => Ok((Venue::Binance, next)),
                1 => Ok((Venue::Bybit, next)),
                2 => Ok((Venue::OKX, next)),
                3 => Ok((Venue::Deribit, next)),
                4 => Ok((Venue::Coinbase, next)),
                5 => Ok((Venue::Kraken, next)),
                6 => Ok((Venue::DYDX, next)),
                7 => Ok((Venue::Hyperliquid, next)),
                8 => Ok((Venue::Simulated, next)),
                _ => Err(codec::invalid_variant(index, 9)),
            },
        }
    }
}

impl DeepView for Side {
    type V = Side;

    open spec fn deep_view(&self) -> Side {
        *self
    }
}

impl Wire for Side {
    open spec fn fits(v: Side) -> bool {
        true
    }

    open spec fn enc(v: Side) -> Seq<u8> {
        u32::enc(
            match v {
                Side::Buy => 0u32,
                Side::Sell => 1u32,
            },
        )
    }

    open spec fn dec(s: Seq<u8>) -> Option<(Side, Seq<u8>)> {
        match u32::dec(s) {
            None => None,
            Some((index, rest)) => match index {
                0 => Some((Side::Buy, rest)),
                1 => Some((Side::Sell, rest)),
                _ => None,
            },
        }
    }

    proof fn round_trip(v: Side, rest: Seq<u8>) {
        let index: u32 = match v {
            Side::Buy => 0,
            Side::Sell => 1,
        };
        u32::round_trip(index, rest);
    }

    fn put(&self, out: &mut Vec<u8>) {
        let index: u32 = match self {
            Side::Buy => 0,
            Side::Sell => 1,
        };
        index.put(out);
    }

    fn get(data: &[u8], pos: usize) -> (r: Result<(Side, usize), String>) {
        match u32::get(data, pos) {
            Err(e) => Err(e),
            Ok((index, next)) => match index {
                0 => Ok((Side::Buy, next)),
                1 => Ok((Side::Sell, next)),
                _ => Err(codec::invalid_variant(index, 2)),
            },
        }
    }
}

impl DeepView for OrderType {
    type V = OrderType;

    open spec fn deep_view(&self) -> OrderType {
        *self
    }
}

impl Wire for OrderType {
    open spec fn fits(v: OrderType) -> bool {
        true
    }

    open spec fn enc(v: OrderType) -> Seq<u8> {
        u32::enc(
            match v {
                OrderType::Market => 0u32,
                OrderType::Limit => 1u32,
                OrderType::StopMarket => 2u32,
                OrderType::StopLimit => 3u32,
            },
        )
    }

    open spec fn dec(s: Seq<u8>) -> Option<(OrderType, Seq<u8>)> {
        match u32::dec(s) {
            None => None,
            Some((index, rest)) => match index {
                0 => Some((OrderType::Market, rest)),
                1 => Some((OrderType::Limit, rest)),
                2 => Some((OrderType::StopMarket, rest)),
                3 => Some((OrderType::StopLimit, rest)),
                _ => None,
            },
        }
    }

    proof fn round_trip(v: OrderType, rest: Seq<u8>) {
        let index: u32 = match v {
            OrderType::Market => 0,
            OrderType::Limit => 1,
            OrderType::StopMarket => 2,
            OrderType::StopLimit => 3,
        };
        u32::round_trip(index, rest);
    }

    fn put(&self, out: &mut Vec<u8>) {
        let index: u32 = match self {
            OrderType::Market => 0,
            OrderType::Limit => 1,
            OrderType::StopMarket => 2,
            OrderType::StopLimit => 3,
        };
        index.put(out);
    }

    fn get(data: &[u8], pos: usize) -> (r: Result<(OrderType, usize), String>) {
        match u32::get(data, pos) {
            Err(e) => Err(e),
            Ok((index, next)) => match index {
                0 => Ok((OrderType::Market, next)),
                1 => Ok((OrderType::Limit, next)),
                2 => Ok((OrderType::StopMarket, next)),
                3 => Ok((OrderType::StopLimit, next)),
                _ => Err(codec::invalid_variant(index, 4)),
            },
        }
    }
}

impl DeepView for NodeRole {
    type V = NodeRole;

    open spec fn deep_view(&self) -> NodeRole {
        *self
    }
}

impl Wire for NodeRole {
    open spec fn fits(v: NodeRole) -> bool {
        true
    }

    open spec fn enc(v: NodeRole) -> Seq<u8> {
        u32::enc(
            match v {
                NodeRole::Leader => 0u32,
                NodeRole::Follower => 1u32,
                NodeRole::Observer => 2u32,
            },
        )
    }

    open spec fn dec(s: Seq<u8>) -> Option<(NodeRole, Seq<u8>)> {
        match u32::dec(s) {
            None => None,
            Some((index, rest)) => match index {
                0 => Some((NodeRole::Leader, rest)),
                1 => Some((NodeRole::Follower, rest)),
                2 => Some((NodeRole::Observer, rest)),
                _ => None,
            },
        }
    }

    proof fn round_trip(v: NodeRole, rest: Seq<u8>) {
        let index: u32 = match v {
            NodeRole::Leader => 0,
            NodeRole::Follower => 1,
            NodeRole::Observer => 2,
        };
        u32::round_trip(index, rest);
    }

    fn put(&self, out: &mut Vec<u8>) {
        let index: u32 = match self {
            NodeRole::Leader => 0,
            NodeRole::Follower => 1,
            NodeRole::Observer => 2,
        };
        index.put(out);
    }

    fn get(data: &[u8], pos: usize) -> (r: Result<(NodeRole, usize), String>) {
        match u32::get(data, pos) {
            Err(e) => Err(e),
            Ok((index, next)) => match index {
                0 => Ok((NodeRole::Leader, next)),
                1 => Ok((NodeRole::Follower, next)),
                2 => Ok((NodeRole::Observer, next)),
                _ => Err(codec::invalid_variant(index, 3)),
            },
        }
    }
}

impl DeepView for TimeInForce {
    type V = TimeInForce;

    open spec fn deep_view(&self) -> TimeInForce {
        *self
    }
}

impl Wire for TimeInForce {
    open spec fn fits(v: TimeInForce) -> bool {
        true
    }

    open spec fn enc(v: TimeInForce) -> Seq<u8> {
        match v {
            TimeInForce::GoodTilCancel => u32::enc(0),
            TimeInForce::ImmediateOrCancel => u32::enc(1),
            TimeInForce::FillOrKill => u32::enc(2),
            TimeInForce::GoodTilDate(date) => u32::enc(3) + u64::enc(date),
        }
    }

    open spec fn dec(s: Seq<u8>) -> Option<(TimeInForce, Seq<u8>)> {
        match u32::dec(s) {
            None => None,
            Some((index, body)) => match index {
                0 => Some((TimeInForce::GoodTilCancel, body)),
                1 => Some((TimeInForce::ImmediateOrCancel, body)),
                2 => Some((TimeInForce::FillOrKill, body)),
                3 => match u64::dec(body) {
                    None => None,
                    Some((date, rest)) => Some((TimeInForce::GoodTilDate(date), rest)),
                },
                _ => None,
            },
        }
    }

    proof fn round_trip(v: TimeInForce, rest: Seq<u8>) {
        u32::round_trip(0, rest);
        u32::round_trip(1, rest);
        u32::round_trip(2, rest);
        if let TimeInForce::GoodTilDate(date) = v {
            u64::round_trip(date, rest);
            u32::round_trip(3, u64::enc(date) + rest);
            assert(Self::enc(v) + rest =~= u32::enc(3) + (u64::enc(date) + rest));
        }
    }

    fn put(&self, out: &mut Vec<u8>) {
        let ghost before = out@;
        match self {
            TimeInForce::GoodTilCancel => {
                (0u32).put(out);
            },
            TimeInForce::ImmediateOrCancel => {
                (1u32).put(out);
            },
            TimeInForce::FillOrKill => {
                (2u32).put(out);
            },
            TimeInForce::GoodTilDate(date) => {
                (3u32).put(out);
                date.put(out);
            },
        }
        assert(out@ =~= before + Self::enc(self.deep_view()));
    }

    fn get(data: &[u8], pos: usize) -> (r: Result<(TimeInForce, usize), String>) {
        match u32::get(data, pos) {
            Err(e) => Err(e),
            Ok((index, body)) => match index {
                0 => Ok((TimeInForce::GoodTilCancel, body)),
                1 => Ok((TimeInForce::ImmediateOrCancel, body)),
                2 => Ok((TimeInForce::FillOrKill, body)),
                3 => match u64::get(data, body) {
                    Err(e) => Err(e),
                    Ok((date, next)) => Ok((TimeInForce::GoodTilDate(date), next)),
                },
                _ => Err(codec::invalid_variant(index, 4)),
            },
        }
    }
}

impl DeepView for Price {
    type V = Price;

    open spec fn deep_view(&self) -> Price {
        *self
    }
}

impl Wire for Price {
    open spec fn fits(v: Price) -> bool {
        true
    }

    open spec fn enc(v: Price) -> Seq<u8> {
        i64::enc(v.0)
    }

    open spec fn dec(s: Seq<u8>) -> Option<(Price, Seq<u8>)> {
        match i64::dec(s) {
            None => None,
            Some((x, rest)) => Some((Price(x), rest)),
        }
    }

    proof fn round_trip(v: Price, rest: Seq<u8>) {
        i64::round_trip(v.0, rest);
    }

    fn put(&self, out: &mut Vec<u8>) {
        self.0.put(out);
    }

    fn get(data: &[u8], pos: usize) -> (r: Result<(Price, usize), String>) {
        match i64::get(data, pos) {
            Err(e) => Err(e),
            Ok((x, next)) => Ok((Price(x), next)),
        }
    }
}

impl DeepView for Qty {
    type V = Qty;

    open spec fn deep_view(&self) -> Qty {
        *self
    }
}

impl Wire for Qty {
    open spec fn fits(v: Qty) -> bool {
        true
    }

    open spec fn enc(v: Qty) -> Seq<u8> {
        u64::enc(v.0)
    }

    open spec fn dec(s: Seq<u8>) -> Option<(Qty, Seq<u8>)> {
        match u64::dec(s) {
            None => None,
            Some((x, rest)) => Some((Qty(x), rest)),
        }
    }

    proof fn round_trip(v: Qty, rest: Seq<u8>) {
        u64::round_trip(v.0, rest);
    }

    fn put(&self, out: &mut Vec<u8>) {
        self.0.put(out);
    }

    fn get(data: &[u8], pos: usize) -> (r: Result<(Qty, usize), String>) {
        match u64::get(data, pos) {
            Err(e) => Err(e),
            Ok((x, next)) => Ok((Qty(x), next)),
        }
    }
}

impl DeepView for OrderId {
    type V = Seq<char>;

    open spec fn deep_view(&self) -> Seq<char> {
        self@
    }
}

impl Wire for OrderId {
    open spec fn fits(v: Seq<char>) -> bool {
        String::fits(v)
    }

    open spec fn enc(v: Seq<char>) -> Seq<u8> {
        String::enc(v)
    }

    open spec fn dec(s: Seq<u8>) -> Option<(Seq<char>, Seq<u8>)> {
        String::dec(s)
    }

    proof fn round_trip(v: Seq<char>, rest: Seq<u8>) {
        String::round_trip(v, rest);
    }

    fn put(&self, out: &mut Vec<u8>) {
        self.0.put(out);
    }

    fn get(data: &[u8], pos: usize) -> (r: Result<(OrderId, usize), String>) {
        match String::get(data, pos) {
            Err(e) => Err(e),
            Ok((x, next)) => Ok((OrderId(x), next)),
        }
    }
}

impl DeepView for Symbol {
    type V = SymbolView;

    open spec fn deep_view(&self) -> SymbolView {
        self@
    }
}

impl Wire for Symbol {
    open spec fn fits(v: SymbolView) -> bool {
        <(String, (String, Venue))>::fits((v.base, (v.quote, v.venue)))
    }

    open spec fn enc(v: SymbolView) -> Seq<u8> {
        <(String, (String, Venue))>::enc((v.base, (v.quote, v.venue)))
    }

    open spec fn dec(s: Seq<u8>) -> Option<(SymbolView, Seq<u8>)> {
        match <(String, (String, Venue))>::dec(s) {
            None => None,
            Some(((base, (quote, venue)), rest)) => Some((SymbolView { base, quote, venue }, rest)),
        }
    }

    proof fn round_trip(v: SymbolView, rest: Seq<u8>) {
        <(String, (String, Venue))>::round_trip((v.base, (v.quote, v.venue)), rest);
    }

    fn put(&self, out: &mut Vec<u8>) {
        let ghost before = out@;
        self.base.put(out);
        self.quote.put(out);
        self.venue.put(out);
        assert(out@ =~= before + Self::enc(self.deep_view()));
    }

    fn get(data: &[u8], pos: usize) -> (r: Result<(Symbol, usize), String>) {
        match <(String, (String, Venue))>::get(data, pos) {
            Err(e) => Err(e),
            Ok(((base, (quote, venue)), next)) => {
                Ok((Symbol { base, quote, venue }, next))
            },
        }
    }
}

impl DeepView for Level {
    type V = Level;

    open spec fn deep_view(&self) -> Level {
        *self
    }
}

impl Wire for Level {
    open spec fn fits(v: Level) -> bool {
        <(Price, Qty)>::fits((v.price, v.qty))
    }

    open spec fn enc(v: Level) -> Seq<u8> {
        <(Price, Qty)>::enc((v.price, v.qty))
    }

    open spec fn dec(s: Seq<u8>) -> Option<(Level, Seq<u8>)> {
        match <(Price, Qty)>::dec(s) {
            None => None,
            Some(((price, qty), rest)) => Some((Level { price, qty }, rest)),
        }
    }

    proof fn round_trip(v: Level, rest: Seq<u8>) {
        <(Price, Qty)>::round_trip((v.price, v.qty), rest);
    }

    fn put(&self, out: &mut Vec<u8>) {
        let ghost before = out@;
        self.price.put(out);
        self.qty.put(out);
        assert(out@ =~= before + Self::enc(self.deep_view()));
    }

    fn get(data: &[u8], pos: usize) -> (r: Result<(Level, usize), String>) {
        match <(Price, Qty)>::get(data, pos) {
            Err(e) => Err(e),
            Ok(((price, qty), next)) => {
                Ok((Level { price, qty }, next))
            },
        }
    }
}

impl Wire for OrderBookUpdateEvent {
    open spec fn fits(v: OrderBookUpdateEventView) -> bool {
        <(Symbol, (Vec<Level>, (Vec<Level>, (bool, u64))))>::fits((v.symbol, (v.bids, (v.asks, (v.is_snapshot, v.exchange_ts)))))
    }

    open spec fn enc(v: OrderBookUpdateEventView) -> Seq<u8> {
        <(Symbol, (Vec<Level>, (Vec<Level>, (bool, u64))))>::enc((v.symbol, (v.bids, (v.asks, (v.is_snapshot, v.exchange_ts)))))
    }

    open spec fn dec(s: Seq<u8>) -> Option<(OrderBookUpdateEventView, Seq<u8>)> {
        match <(Symbol, (Vec<Level>, (Vec<Level>, (bool, u64))))>::dec(s) {
            None => None,
            Some(((symbol, (bids, (asks, (is_snapshot, exchange_ts)))), rest)) => Some((OrderBookUpdateEventView { symbol, bids, asks, is_snapshot, exchange_ts }, rest)),
        }
    }

    proof fn round_trip(v: OrderBookUpdateEventView, rest: Seq<u8>) {
        <(Symbol, (Vec<Level>, (Vec<Level>, (bool, u64))))>::round_trip((v.symbol, (v.bids, (v.asks, (v.is_snapshot, v.exchange_ts)))), rest);
    }

    fn put(&self, out: &mut Vec<u8>) {
        let ghost before = out@;
        self.symbol.put(out);
        self.bids.put(out);
        self.asks.put(out);
        self.is_snapshot.put(out);
        self.exchange_ts.put(out);
        assert(self.bids.deep_view() =~= self.bids@);
        assert(self.asks.deep_view() =~= self.asks@);
        assert(out@ =~= before + Self::enc(self.deep_view()));
    }

    fn get(data: &[u8], pos: usize) -> (r: Result<(OrderBookUpdateEvent, usize), String>) {
        match <(Symbol, (Vec<Level>, (Vec<Level>, (bool, u64))))>::get(data, pos) {
            Err(e) => Err(e),
            Ok(((symbol, (bids, (asks, (is_snapshot, exchange_ts)))), next)) => {
                assert(bids.deep_view() =~= bids@);
                assert(asks.deep_view() =~= asks@);
                Ok((OrderBookUpdateEvent { symbol, bids, asks, is_snapshot, exchange_ts }, next))
            },
        }
    }
}

impl Wire for TradeEvent {
    open spec fn fits(v: TradeEventView) -> bool {
        <(Symbol, (Price, (Qty, (Side, u64))))>::fits((v.symbol, (v.price, (v.qty, (v.side, v.exchange_ts)))))
    }

    open spec fn enc(v: TradeEventView) -> Seq<u8> {
        <(Symbol, (Price, (Qty, (Side, u64))))>::enc((v.symbol, (v.price, (v.qty, (v.side, v.exchange_ts)))))
    }

    open spec fn dec(s: Seq<u8>) -> Option<(TradeEventView, Seq<u8>)> {
        match <(Symbol, (Price, (Qty, (Side, u64))))>::dec(s) {
            None => None,
            Some(((symbol, (price, (qty, (side, exchange_ts)))), rest)) => Some((TradeEventView { symbol, price, qty, side, exchange_ts }, rest)),
        }
    }

    proof fn round_trip(v: TradeEventView, rest: Seq<u8>) {
        <(Symbol, (Price, (Qty, (Side, u64))))>::round_trip((v.symbol, (v.price, (v.qty, (v.side, v.exchange_ts)))), rest);
    }

    fn put(&self, out: &mut Vec<u8>) {
        let ghost before = out@;
        self.symbol.put(out);
        self.price.put(out);
        self.qty.put(out);
        self.side.put(out);
        self.exchange_ts.put(out);
        assert(out@ =~= before + Self::enc(self.deep_view()));
    }

    fn get(data: &[u8], pos: usize) -> (r: Result<(TradeEvent, usize), String>) {
        match <(Symbol, (Price, (Qty, (Side, u64))))>::get(data, pos) {
            Err(e) => Err(e),
            Ok(((symbol, (price, (qty, (side, exchange_ts)))), next)) => {
                Ok((TradeEvent { symbol, price, qty, side, exchange_ts }, next))
            },
        }
    }
}

impl Wire for TickerEvent {
    open spec fn fits(v: TickerEventView) -> bool {
        <(Symbol, (Price, (Price, (Price, (Qty, u64)))))>::fits((v.symbol, (v.bid, (v.ask, (v.last, (v.volume_24h, v.exchange_ts))))))
    }

    open spec fn enc(v: TickerEventView) -> Seq<u8> {
        <(Symbol, (Price, (Price, (Price, (Qty, u64)))))>::enc((v.symbol, (v.bid, (v.ask, (v.last, (v.volume_24h, v.exchange_ts))))))
    }

    open spec fn dec(s: Seq<u8>) -> Option<(TickerEventView, Seq<u8>)> {
        match <(Symbol, (Price, (Price, (Price, (Qty, u64)))))>::dec(s) {
            None => None,
            Some(((symbol, (bid, (ask, (last, (volume_24h, exchange_ts))))), rest)) => Some((TickerEventView { symbol, bid, ask, last, volume_24h, exchange_ts }, rest)),
        }
    }

    proof fn round_trip(v: TickerEventView, rest: Seq<u8>) {
        <(Symbol, (Price, (Price, (Price, (Qty, u64)))))>::round_trip((v.symbol, (v.bid, (v.ask, (v.last, (v.volume_24h, v.exchange_ts))))), rest);
    }

    fn put(&self, out: &mut Vec<u8>) {
        let ghost before = out@;
        self.symbol.put(out);
        self.bid.put(out);
        self.ask.put(out);
        self.last.put(out);
        self.volume_24h.put(out);
        self.exchange_ts.put(out);
        assert(out@ =~= before + Self::enc(self.deep_view()));
    }

    fn get(data: &[u8], pos: usize) -> (r: Result<(TickerEvent, usize), String>) {
        match <(Symbol, (Price, (Price, (Price, (Qty, u64)))))>::get(data, pos) {
            Err(e) => Err(e),
            Ok(((symbol, (bid, (ask, (last, (volume_24h, exchange_ts))))), next)) => {
                Ok((TickerEvent { symbol, bid, ask, last, volume_24h, exchange_ts }, next))
            },
        }
    }
}

impl Wire for OrderNewEvent {
    open spec fn fits(v: OrderNewEventView) -> bool {
        <(OrderId, (Symbol, (Side, (OrderType, (Price, (Qty, (TimeInForce, Venue)))))))>::fits((v.order_id, (v.symbol, (v.side, (v.order_type, (v.price, (v.qty, (v.time_in_force, v.venue))))))))
    }

    open spec fn enc(v: OrderNewEventView) -> Seq<u8> {
        <(OrderId, (Symbol, (Side, (OrderType, (Price, (Qty, (TimeInForce, Venue)))))))>::enc((v.order_id, (v.symbol, (v.side, (v.order_type, (v.price, (v.qty, (v.time_in_force, v.venue))))))))
    }

    open spec fn dec(s: Seq<u8>) -> Option<(OrderNewEventView, Seq<u8>)> {
        match <(OrderId, (Symbol, (Side, (OrderType, (Price, (Qty, (TimeInForce, Venue)))))))>::dec(s) {
            None => None,
            Some(((order_id, (symbol, (side, (order_type, (price, (qty, (time_in_force, venue))))))), rest)) => Some((OrderNewEventView { order_id, symbol, side, order_type, price, qty, time_in_force, venue }, rest)),
        }
    }

    proof fn round_trip(v: OrderNewEventView, rest: Seq<u8>) {
        <(OrderId, (Symbol, (Side, (OrderType, (Price, (Qty, (TimeInForce, Venue)))))))>::round_trip((v.order_id, (v.symbol, (v.side, (v.order_type, (v.price, (v.qty, (v.time_in_force, v.venue))))))), rest);
    }

    fn put(&self, out: &mut Vec<u8>) {
        let ghost before = out@;
        self.order_id.put(out);
        self.symbol.put(out);
        self.side.put(out);
        self.order_type.put(out);
        self.price.put(out);
        self.qty.put(out);
        self.time_in_force.put(out);
        self.venue.put(out);
        assert(out@ =~= before + Self::enc(self.deep_view()));
    }

    fn get(data: &[u8], pos: usize) -> (r: Result<(OrderNewEvent, usize), String>) {
        match <(OrderId, (Symbol, (Side, (OrderType, (Price, (Qty, (TimeInForce, Venue)))))))>::get(data, pos) {
            Err(e) => Err(e),
            Ok(((order_id, (symbol, (side, (order_type, (price, (qty, (time_in_force, venue))))))), next)) => {
                Ok((OrderNewEvent { order_id, symbol, side, order_type, price, qty, time_in_force, venue }, next))
            },
        }
    }
}

impl Wire for OrderAckEvent {
    open spec fn fits(v: OrderAckEventView) -> bool {
        <(OrderId, (String, Venue))>::fits((v.order_id, (v.exchange_order_id, v.venue)))
    }

    open spec fn enc(v: OrderAckEventView) -> Seq<u8> {
        <(OrderId, (String, Venue))>::enc((v.order_id, (v.exchange_order_id, v.venue)))
    }

    open spec fn dec(s: Seq<u8>) -> Option<(OrderAckEventView, Seq<u8>)> {
        match <(OrderId, (String, Venue))>::dec(s) {
            None => None,
            Some(((order_id, (exchange_order_id, venue)), rest)) => Some((OrderAckEventView { order_id, exchange_order_id, venue }, rest)),
        }
    }

    proof fn round_trip(v: OrderAckEventView, rest: Seq<u8>) {
        <(OrderId, (String, Venue))>::round_trip((v.order_id, (v.exchange_order_id, v.venue)), rest);
    }

    fn put(&self, out: &mut Vec<u8>) {
        let ghost before = out@;
        self.order_id.put(out);
        self.exchange_order_id.put(out);
        self.venue.put(out);
        assert(out@ =~= before + Self::enc(self.deep_view()));
    }

    fn get(data: &[u8], pos: usize) -> (r: Result<(OrderAckEvent, usize), String>) {
        match <(OrderId, (String, Venue))>::get(data, pos) {
            Err(e) => Err(e),
            Ok(((order_id, (exchange_order_id, venue)), next)) => {
                Ok((OrderAckEvent { order_id, exchange_order_id, venue }, next))
            },
        }
    }
}

impl Wire for OrderFillEvent {
    open spec fn fits(v: OrderFillEventView) -> bool {
        <(OrderId, (Symbol, (Side, (Price, (Qty, (Qty, (i64, (bool, Venue))))))))>::fits((v.order_id, (v.symbol, (v.side, (v.price, (v.qty, (v.remaining, (v.fee, (v.is_maker, v.venue)))))))))
    }

    open spec fn enc(v: OrderFillEventView) -> Seq<u8> {
        <(OrderId, (Symbol, (Side, (Price, (Qty, (Qty, (i64, (bool, Venue))))))))>::enc((v.order_id, (v.symbol, (v.side, (v.price, (v.qty, (v.remaining, (v.fee, (v.is_maker, v.venue)))))))))
    }

    open spec fn dec(s: Seq<u8>) -> Option<(OrderFillEventView, Seq<u8>)> {
        match <(OrderId, (Symbol, (Side, (Price, (Qty, (Qty, (i64, (bool, Venue))))))))>::dec(s) {
            None => None,
            Some(((order_id, (symbol, (side, (price, (qty, (remaining, (fee, (is_maker, venue)))))))), rest)) => Some((OrderFillEventView { order_id, symbol, side, price, qty, remaining, fee, is_maker, venue }, rest)),
        }
    }

    proof fn round_trip(v: OrderFillEventView, rest: Seq<u8>) {
        <(OrderId, (Symbol, (Side, (Price, (Qty, (Qty, (i64, (bool, Venue))))))))>::round_trip((v.order_id, (v.symbol, (v.side, (v.price, (v.qty, (v.remaining, (v.fee, (v.is_maker, v.venue)))))))), rest);
    }

    fn put(&self, out: &mut Vec<u8>) {
        let ghost before = out@;
        self.order_id.put(out);
        self.symbol.put(out);
        self.side.put(out);
        self.price.put(out);
        self.qty.put(out);
        self.remaining.put(out);
        self.fee.put(out);
        self.is_maker.put(out);
        self.venue.put(out);
        assert(out@ =~= before + Self::enc(self.deep_view()));
    }

    fn get(data: &[u8], pos: usize) -> (r: Result<(OrderFillEvent, usize), String>) {
        match <(OrderId, (Symbol, (Side, (Price, (Qty, (Qty, (i64, (bool, Venue))))))))>::get(data, pos) {
            Err(e) => Err(e),
            Ok(((order_id, (symbol, (side, (price, (qty, (remaining, (fee, (is_maker, venue)))))))), next)) => {
                Ok((OrderFillEvent { order_id, symbol, side, price, qty, remaining, fee, is_maker, venue }, next))
            },
        }
    }
}

impl Wire for OrderCancelEvent {
    open spec fn fits(v: OrderCancelEventView) -> bool {
        <(OrderId, (String, Venue))>::fits((v.order_id, (v.reason, v.venue)))
    }

    open spec fn enc(v: OrderCancelEventView) -> Seq<u8> {
        <(OrderId, (String, Venue))>::enc((v.order_id, (v.reason, v.venue)))
    }

    open spec fn dec(s: Seq<u8>) -> Option<(OrderCancelEventView, Seq<u8>)> {
        match <(OrderId, (String, Venue))>::dec(s) {
            None => None,
            Some(((order_id, (reason, venue)), rest)) => Some((OrderCancelEventView { order_id, reason, venue }, rest)),
        }
    }

    proof fn round_trip(v: OrderCancelEventView, rest: Seq<u8>) {
        <(OrderId, (String, Venue))>::round_trip((v.order_id, (v.reason, v.venue)), rest);
    }

    fn put(&self, out: &mut Vec<u8>) {
        let ghost before = out@;
        self.order_id.put(out);
        self.reason.put(out);
        self.venue.put(out);
        assert(out@ =~= before + Self::enc(self.deep_view()));
    }

    fn get(data: &[u8], pos: usize) -> (r: Result<(OrderCancelEvent, usize), String>) {
        match <(OrderId, (String, Venue))>::get(data, pos) {
            Err(e) => Err(e),
            Ok(((order_id, (reason, venue)), next)) => {
                Ok((OrderCancelEvent { order_id, reason, venue }, next))
            },
        }
    }
}

impl Wire for OrderRejectEvent {
    open spec fn fits(v: OrderRejectEventView) -> bool {
        <(OrderId, (String, Venue))>::fits((v.order_id, (v.reason, v.venue)))
    }

    open spec fn enc(v: OrderRejectEventView) -> Seq<u8> {
        <(OrderId, (String, Venue))>::enc((v.order_id, (v.reason, v.venue)))
    }

    open spec fn dec(s: Seq<u8>) -> Option<(OrderRejectEventView, Seq<u8>)> {
        match <(OrderId, (String, Venue))>::dec(s) {
            None => None,
            Some(((order_id, (reason, venue)), rest)) => Some((OrderRejectEventView { order_id, reason, venue }, rest)),
        }
    }

    proof fn round_trip(v: OrderRejectEventView, rest: Seq<u8>) {
        <(OrderId, (String, Venue))>::round_trip((v.order_id, (v.reason, v.venue)), rest);
    }

    fn put(&self, out: &mut Vec<u8>) {
        let ghost before = out@;
        self.order_id.put(out);
        self.reason.put(out);
        self.venue.put(out);
        assert(out@ =~= before + Self::enc(self.deep_view()));
    }

    fn get(data: &[u8], pos: usize) -> (r: Result<(OrderRejectEvent, usize), String>) {
        match <(OrderId, (String, Venue))>::get(data, pos) {
            Err(e) => Err(e),
            Ok(((order_id, (reason, venue)), next)) => {
                Ok((OrderRejectEvent { order_id, reason, venue }, next))
            },
        }
    }
}

impl Wire for SnapshotEvent {
    open spec fn fits(v: SnapshotEventView) -> bool {
        <([u8; 8], u64)>::fits((v.state_hash, v.event_count))
    }

    open spec fn enc(v: SnapshotEventView) -> Seq<u8> {
        <([u8; 8], u64)>::enc((v.state_hash, v.event_count))
    }

    open spec fn dec(s: Seq<u8>) -> Option<(SnapshotEventView, Seq<u8>)> {
        match <([u8; 8], u64)>::dec(s) {
            None => None,
            Some(((state_hash, event_count), rest)) => Some((SnapshotEventView { state_hash, event_count }, rest)),
        }
    }

    proof fn round_trip(v: SnapshotEventView, rest: Seq<u8>) {
        <([u8; 8], u64)>::round_trip((v.state_hash, v.event_count), rest);
    }

    fn put(&self, out: &mut Vec<u8>) {
        let ghost before = out@;
        self.state_hash.put(out);
        self.event_count.put(out);
        assert(self.state_hash.deep_view() =~= self.state_hash@);
        assert(out@ =~= before + Self::enc(self.deep_view()));
    }

    fn get(data: &[u8], pos: usize) -> (r: Result<(SnapshotEvent, usize), String>) {
        match <([u8; 8], u64)>::get(data, pos) {
            Err(e) => Err(e),
            Ok(((state_hash, event_count), next)) => {
                assert(state_hash.deep_view() =~= state_hash@);
                Ok((SnapshotEvent { state_hash, event_count }, next))
            },
        }
    }
}

impl Wire for HeartbeatEvent {
    open spec fn fits(v: HeartbeatEventView) -> bool {
        <([u8; 32], u64)>::fits((v.node_id, v.uptime_secs))
    }

    open spec fn enc(v: HeartbeatEventView) -> Seq<u8> {
        <([u8; 32], u64)>::enc((v.node_id, v.uptime_secs))
    }

    open spec fn dec(s: Seq<u8>) -> Option<(HeartbeatEventView, Seq<u8>)> {
        match <([u8; 32], u64)>::dec(s) {
            None => None,
            Some(((node_id, uptime_secs), rest)) => Some((HeartbeatEventView { node_id, uptime_secs }, rest)),
        }
    }

    proof fn round_trip(v: HeartbeatEventView, rest: Seq<u8>) {
        <([u8; 32], u64)>::round_trip((v.node_id, v.uptime_secs), rest);
    }

    fn put(&self, out: &mut Vec<u8>) {
        let ghost before = out@;
        self.node_id.put(out);
        self.uptime_secs.put(out);
        assert(self.node_id.deep_view() =~= self.node_id@);
        assert(out@ =~= before + Self::enc(self.deep_view()));
    }

    fn get(data: &[u8], pos: usize) -> (r: Result<(HeartbeatEvent, usize), String>) {
        match <([u8; 32], u64)>::get(data, pos) {
            Err(e) => Err(e),
            Ok(((node_id, uptime_secs), next)) => {
                assert(node_id.deep_view() =~= node_id@);
                Ok((HeartbeatEvent { node_id, uptime_secs }, next))
            },
        }
    }
}

impl Wire for NodeJoinEvent {
    open spec fn fits(v: NodeJoinEventView) -> bool {
        <([u8; 32], (NodeRole, String))>::fits((v.node_id, (v.role, v.addr)))
    }

    open spec fn enc(v: NodeJoinEventView) -> Seq<u8> {
        <([u8; 32], (NodeRole, String))>::enc((v.node_id, (v.role, v.addr)))
    }

    open spec fn dec(s: Seq<u8>) -> Option<(NodeJoinEventView, Seq<u8>)> {
        match <([u8; 32], (NodeRole, String))>::dec(s) {
            None => None,
            Some(((node_id, (role, addr)), rest)) => Some((NodeJoinEventView { node_id, role, addr }, rest)),
        }
    }

    proof fn round_trip(v: NodeJoinEventView, rest: Seq<u8>) {
        <([u8; 32], (NodeRole, String))>::round_trip((v.node_id, (v.role, v.addr)), rest);
    }

    fn put(&self, out: &mut Vec<u8>) {
        let ghost before = out@;
        self.node_id.put(out);
        self.role.put(out);
        self.addr.put(out);
        assert(self.node_id.deep_view() =~= self.node_id@);
        assert(out@ =~= before + Self::enc(self.deep_view()));
    }

    fn get(data: &[u8], pos: usize) -> (r: Result<(NodeJoinEvent, usize), String>) {
        match <([u8; 32], (NodeRole, String))>::get(data, pos) {
            Err(e) => Err(e),
            Ok(((node_id, (role, addr)), next)) => {
                assert(node_id.deep_view() =~= node_id@);
                Ok((NodeJoinEvent { node_id, role, addr }, next))
            },
        }
    }
}

impl Wire for NodeLeaveEvent {
    open spec fn fits(v: NodeLeaveEventView) -> bool {
        <([u8; 32], String)>::fits((v.node_id, v.reason))
    }

    open spec fn enc(v: NodeLeaveEventView) -> Seq<u8> {
        <([u8; 32], String)>::enc((v.node_id, v.reason))
    }

    open spec fn dec(s: Seq<u8>) -> Option<(NodeLeaveEventView, Seq<u8>)> {
        match <([u8; 32], String)>::dec(s) {
            None => None,
            Some(((node_id, reason), rest)) => Some((NodeLeaveEventView { node_id, reason }, rest)),
        }
    }

    proof fn round_trip(v: NodeLeaveEventView, rest: Seq<u8>) {
        <([u8; 32], String)>::round_trip((v.node_id, v.reason), rest);
    }

    fn put(&self, out: &mut Vec<u8>) {
        let ghost before = out@;
        self.node_id.put(out);
        self.reason.put(out);
        assert(self.node_id.deep_view() =~= self.node_id@);
        assert(out@ =~= before + Self::enc(self.deep_view()));
    }

    fn get(data: &[u8], pos: usize) -> (r: Result<(NodeLeaveEvent, usize), String>) {
        match <([u8; 32], String)>::get(data, pos) {
            Err(e) => Err(e),
            Ok(((node_id, reason), next)) => {
                assert(node_id.deep_view() =~= node_id@);
                Ok((NodeLeaveEvent { node_id, reason }, next))
            },
        }
    }
}

impl Wire for SignalEvent {
    open spec fn fits(v: SignalEventView) -> bool {
        <(String, (Symbol, (Side, (u64, String))))>::fits((v.strategy_id, (v.symbol, (v.side, (v.strength_bits, v.metadata)))))
    }

    open spec fn enc(v: SignalEventView) -> Seq<u8> {
        <(String, (Symbol, (Side, (u64, String))))>::enc((v.strategy_id, (v.symbol, (v.side, (v.strength_bits, v.metadata)))))
    }

    open spec fn dec(s: Seq<u8>) -> Option<(SignalEventView, Seq<u8>)> {
        match <(String, (Symbol, (Side, (u64, String))))>::dec(s) {
            None => None,
            Some(((strategy_id, (symbol, (side, (strength_bits, metadata)))), rest)) => Some((SignalEventView { strategy_id, symbol, side, strength_bits, metadata }, rest)),
        }
    }

    proof fn round_trip(v: SignalEventView, rest: Seq<u8>) {
        <(String, (Symbol, (Side, (u64, String))))>::round_trip((v.strategy_id, (v.symbol, (v.side, (v.strength_bits, v.metadata)))), rest);
    }

    fn put(&self, out: &mut Vec<u8>) {
        let ghost before = out@;
        self.strategy_id.put(out);
        self.symbol.put(out);
        self.side.put(out);
        self.strength_bits.put(out);
        self.metadata.put(out);
        assert(out@ =~= before + Self::enc(self.deep_view()));
    }

    fn get(data: &[u8], pos: usize) -> (r: Result<(SignalEvent, usize), String>) {
        match <(String, (Symbol, (Side, (u64, String))))>::get(data, pos) {
            Err(e) => Err(e),
            Ok(((strategy_id, (symbol, (side, (strength_bits, metadata)))), next)) => {
                Ok((SignalEvent { strategy_id, symbol, side, strength_bits, metadata }, next))
            },
        }
    }
}

impl Wire for EventPayload {
    open spec fn fits(v: EventPayloadView) -> bool {
        match v {
            EventPayloadView::OrderBookUpdate(x) => OrderBookUpdateEvent::fits(x),
            EventPayloadView::Trade(x) => TradeEvent::fits(x),
            EventPayloadView::Ticker(x) => TickerEvent::fits(x),
            EventPayloadView::OrderNew(x) => OrderNewEvent::fits(x),
            EventPayloadView::OrderAck(x) => OrderAckEvent::fits(x),
            EventPayloadView::OrderFill(x) => OrderFillEvent::fits(x),
            EventPayloadView::OrderPartialFill(x) => OrderFillEvent::fits(x),
            EventPayloadView::OrderCancel(x) => OrderCancelEvent::fits(x),
            EventPayloadView::OrderReject(x) => OrderRejectEvent::fits(x),
            EventPayloadView::Snapshot(x) => SnapshotEvent::fits(x),
            EventPayloadView::Heartbeat(x) => HeartbeatEvent::fits(x),
            EventPayloadView::NodeJoin(x) => NodeJoinEvent::fits(x),
            EventPayloadView::NodeLeave(x) => NodeLeaveEvent::fits(x),
            EventPayloadView::Signal(x) => SignalEvent::fits(x),
        }
    }

    open spec fn enc(v: EventPayloadView) -> Seq<u8> {
        match v {
            EventPayloadView::OrderBookUpdate(x) => u32::enc(0) + OrderBookUpdateEvent::enc(x),
            EventPayloadView::Trade(x) => u32::enc(1) + TradeEvent::enc(x),
            EventPayloadView::Ticker(x) => u32::enc(2) + TickerEvent::enc(x),
            EventPayloadView::OrderNew(x) => u32::enc(3) + OrderNewEvent::enc(x),
            EventPayloadView::OrderAck(x) => u32::enc(4) + OrderAckEvent::enc(x),
            EventPayloadView::OrderFill(x) => u32::enc(5) + OrderFillEvent::enc(x),
            EventPayloadView::OrderPartialFill(x) => u32::enc(6) + OrderFillEvent::enc(x),
            EventPayloadView::OrderCancel(x) => u32::enc(7) + OrderCancelEvent::enc(x),
            EventPayloadView::OrderReject(x) => u32::enc(8) + OrderRejectEvent::enc(x),
            EventPayloadView::Snapshot(x) => u32::enc(9) + SnapshotEvent::enc(x),
            EventPayloadView::Heartbeat(x) => u32::enc(10) + HeartbeatEvent::enc(x),
            EventPayloadView::NodeJoin(x) => u32::enc(11) + NodeJoinEvent::enc(x),
            EventPayloadView::NodeLeave(x) => u32::enc(12) + NodeLeaveEvent::enc(x),
            EventPayloadView::Signal(x) => u32::enc(13) + SignalEvent::enc(x),
        }
    }

    open spec fn dec(s: Seq<u8>) -> Option<(EventPayloadView, Seq<u8>)> {
        match u32::dec(s) {
            None => None,
            Some((index, body)) => match index {
                0 => match OrderBookUpdateEvent::dec(body) {
                    None => None,
                    Some((x, rest)) => Some((EventPayloadView::OrderBookUpdate(x), rest)),
                },
                1 => match TradeEvent::dec(body) {
                    None => None,
                    Some((x, rest)) => Some((EventPayloadView::Trade(x), rest)),
                },
                2 => match TickerEvent::dec(body) {
                    None => None,
                    Some((x, rest)) => Some((EventPayloadView::Ticker(x), rest)),
                },
                3 => match OrderNewEvent::dec(body) {
                    None => None,
                    Some((x, rest)) => Some((EventPayloadView::OrderNew(x), rest)),
                },
                4 => match OrderAckEvent::dec(body) {
                    None => None,
                    Some((x, rest)) => Some((EventPayloadView::OrderAck(x), rest)),
                },
                5 => match OrderFillEvent::dec(body) {
                    None => None,
                    Some((x, rest)) => Some((EventPayloadView::OrderFill(x), rest)),
                },
                6 => match OrderFillEvent::dec(body) {
                    None => None,
                    Some((x, rest)) => Some((EventPayloadView::OrderPartialFill(x), rest)),
                },
                7 => match OrderCancelEvent::dec(body) {
                    None => None,
                    Some((x, rest)) => Some((EventPayloadView::OrderCancel(x), rest)),
                },
                8 => match OrderRejectEvent::dec(body) {
                    None => None,
                    Some((x, rest)) => Some((EventPayloadView::OrderReject(x), rest)),
                },
                9 => match SnapshotEvent::dec(body) {
                    None => None,
                    Some((x, rest)) => Some((EventPayloadView::Snapshot(x), rest)),
                },
                10 => match HeartbeatEvent::dec(body) {
                    None => None,
                    Some((x, rest)) => Some((EventPayloadView::Heartbeat(x), rest)),
                },
                11 => match NodeJoinEvent::dec(body) {
                    None => None,
                    Some((x, rest)) => Some((EventPayloadView::NodeJoin(x), rest)),
                },
                12 => match NodeLeaveEvent::dec(body) {
                    None => None,
                    Some((x, rest)) => Some((EventPayloadView::NodeLeave(x), rest)),
                },
                13 => match SignalEvent::dec(body) {
                    None => None,
                    Some((x, rest)) => Some((EventPayloadView::Signal(x), rest)),
                },
                _ => None,
            },
        }
    }

    proof fn round_trip(v: EventPayloadView, rest: Seq<u8>) {
        match v {
            EventPayloadView::OrderBookUpdate(x) => {
                codec::lemma_tagged::<OrderBookUpdateEvent>(0, x, rest);
            },
            EventPayloadView::Trade(x) => {
                codec::lemma_tagged::<TradeEvent>(1, x, rest);
            },
            EventPayloadView::Ticker(x) => {
                codec::lemma_tagged::<TickerEvent>(2, x, rest);
            },
            EventPayloadView::OrderNew(x) => {
                codec::lemma_tagged::<OrderNewEvent>(3, x, rest);
            },
            EventPayloadView::OrderAck(x) => {
                codec::lemma_tagged::<OrderAckEvent>(4, x, rest);
            },
            EventPayloadView::OrderFill(x) => {
                codec::lemma_tagged::<OrderFillEvent>(5, x, rest);
            },
            EventPayloadView::OrderPartialFill(x) => {
                codec::lemma_tagged::<OrderFillEvent>(6, x, rest);
            },
            EventPayloadView::OrderCancel(x) => {
                codec::lemma_tagged::<OrderCancelEvent>(7, x, rest);
            },
            EventPayloadView::OrderReject(x) => {
                codec::lemma_tagged::<OrderRejectEvent>(8, x, rest);
            },
            EventPayloadView::Snapshot(x) => {
                codec::lemma_tagged::<SnapshotEvent>(9, x, rest);
            },
            EventPayloadView::Heartbeat(x) => {
                codec::lemma_tagged::<HeartbeatEvent>(10, x, rest);
            },
            EventPayloadView::NodeJoin(x) => {
                codec::lemma_tagged::<NodeJoinEvent>(11, x, rest);
            },
            EventPayloadView::NodeLeave(x) => {
                codec::lemma_tagged::<NodeLeaveEvent>(12, x, rest);
            },
            EventPayloadView::Signal(x) => {
                codec::lemma_tagged::<SignalEvent>(13, x, rest);
            },
        }
    }

    fn put(&self, out: &mut Vec<u8>) {
        let ghost before = out@;
        match self {
            EventPayload::OrderBookUpdate(x) => {
                (0u32).put(out);
                x.put(out);
                assert(out@ =~= before + Self::enc(self.deep_view()));
            },
            EventPayload::Trade(x) => {
                (1u32).put(out);
                x.put(out);
                assert(out@ =~= before + Self::enc(self.deep_view()));
            },
            EventPayload::Ticker(x) => {
                (2u32).put(out);
                x.put(out);
                assert(out@ =~= before + Self::enc(self.deep_view()));
            },
            EventPayload::OrderNew(x) => {
                (3u32).put(out);
                x.put(out);
                assert(out@ =~= before + Self::enc(self.deep_view()));
            },
            EventPayload::OrderAck(x) => {
                (4u32).put(out);
                x.put(out);
                assert(out@ =~= before + Self::enc(self.deep_view()));
            },
            EventPayload::OrderFill(x) => {
                (5u32).put(out);
                x.put(out);
                assert(out@ =~= before + Self::enc(self.deep_view()));
            },
            EventPayload::OrderPartialFill(x) => {
                (6u32).put(out);
                x.put(out);
                assert(out@ =~= before + Self::enc(self.deep_view()));
            },
            EventPayload::OrderCancel(x) => {
                (7u32).put(out);
                x.put(out);
                assert(out@ =~= before + Self::enc(self.deep_view()));
            },
            EventPayload::OrderReject(x) => {
                (8u32).put(out);
                x.put(out);
                assert(out@ =~= before + Self::enc(self.deep_view()));
            },
            EventPayload::Snapshot(x) => {
                (9u32).put(out);
                x.put(out);
                assert(out@ =~= before + Self::enc(self.deep_view()));
            },
            EventPayload::Heartbeat(x) => {
                (10u32).put(out);
                x.put(out);
                assert(out@ =~= before + Self::enc(self.deep_view()));
            },
            EventPayload::NodeJoin(x) => {
                (11u32).put(out);
                x.put(out);
                assert(out@ =~= before + Self::enc(self.deep_view()));
            },
            EventPayload::NodeLeave(x) => {
                (12u32).put(out);
                x.put(out);
                assert(out@ =~= before + Self::enc(self.deep_view()));
            },
            EventPayload::Signal(x) => {
                (13u32).put(out);
                x.put(out);
                assert(out@ =~= before + Self::enc(self.deep_view()));
            },
        }
    }

    fn get(data: &[u8], pos: usize) -> (r: Result<(EventPayload, usize), String>) {
        match u32::get(data, pos) {
            Err(e) => Err(e),
            Ok((index, body)) => match index {
                0 => match OrderBookUpdateEvent::get(data, body) {
                    Err(e) => Err(e),
                    Ok((x, next)) => {
                        Ok((EventPayload::OrderBookUpdate(x), next))
                    },
                },
                1 => match TradeEvent::get(data, body) {
                    Err(e) => Err(e),
                    Ok((x, next)) => {
                        Ok((EventPayload::Trade(x), next))
                    },
                },
                2 => match TickerEvent::get(data, body) {
                    Err(e) => Err(e),
                    Ok((x, next)) => {
                        Ok((EventPayload::Ticker(x), next))
                    },
                },
                3 => match OrderNewEvent::get(data, body) {
                    Err(e) => Err(e),
                    Ok((x, next)) => {
                        Ok((EventPayload::OrderNew(x), next))
                    },
                },
                4 => match OrderAckEvent::get(data, body) {
                    Err(e) => Err(e),
                    Ok((x, next)) => {
                        Ok((EventPayload::OrderAck(x), next))
                    },
                },
                5 => match OrderFillEvent::get(data, body) {
                    Err(e) => Err(e),
                    Ok((x, next)) => {
                        Ok((EventPayload::OrderFill(x), next))
                    },
                },
                6 => match OrderFillEvent::get(data, body) {
                    Err(e) => Err(e),
                    Ok((x, next)) => {
                        Ok((EventPayload::OrderPartialFill(x), next))
                    },
                },
                7 => match OrderCancelEvent::get(data, body) {
                    Err(e) => Err(e),
                    Ok((x, next)) => {
                        Ok((EventPayload::OrderCancel(x), next))
                    },
                },
                8 => match OrderRejectEvent::get(data, body) {
                    Err(e) => Err(e),
                    Ok((x, next)) => {
                        Ok((EventPayload::OrderReject(x), next))
                    },
                },
                9 => match SnapshotEvent::get(data, body) {
                    Err(e) => Err(e),
                    Ok((x, next)) => {
                        Ok((EventPayload::Snapshot(x), next))
                    },
                },
                10 => match HeartbeatEvent::get(data, body) {
                    Err(e) => Err(e),
                    Ok((x, next)) => {
                        Ok((EventPayload::Heartbeat(x), next))
                    },
                },
                11 => match NodeJoinEvent::get(data, body) {
                    Err(e) => Err(e),
                    Ok((x, next)) => {
                        Ok((EventPayload::NodeJoin(x), next))
                    },
                },
                12 => match NodeLeaveEvent::get(data, body) {
                    Err(e) => Err(e),
                    Ok((x, next)) => {
                        Ok((EventPayload::NodeLeave(x), next))
                    },
                },
                13 => match SignalEvent::get(data, body) {
                    Err(e) => Err(e),
                    Ok((x, next)) => {
                        Ok((EventPayload::Signal(x), next))
                    },
                },
                _ => Err(codec::invalid_variant(index, 14)),
            },
        }
    }
}

impl Wire for Event {
    open spec fn fits(v: EventView) -> bool {
        <(u64, (u64, ([u8; 32], EventPayload)))>::fits((v.seq, (v.timestamp, (v.source, v.payload))))
    }

    open spec fn enc(v: EventView) -> Seq<u8> {
        <(u64, (u64, ([u8; 32], EventPayload)))>::enc((v.seq, (v.timestamp, (v.source, v.payload))))
    }

    open spec fn dec(s: Seq<u8>) -> Option<(EventView, Seq<u8>)> {
        match <(u64, (u64, ([u8; 32], EventPayload)))>::dec(s) {
            None => None,
            Some(((seq, (timestamp, (source, payload))), rest)) => Some((EventView { seq, timestamp, source, payload }, rest)),
        }
    }

    proof fn round_trip(v: EventView, rest: Seq<u8>) {
        <(u64, (u64, ([u8; 32], EventPayload)))>::round_trip((v.seq, (v.timestamp, (v.source, v.payload))), rest);
    }

    fn put(&self, out: &mut Vec<u8>) {
        let ghost before = out@;
        self.seq.put(out);
        self.timestamp.put(out);
        self.source.put(out);
        self.payload.put(out);
        assert(self.source.deep_view() =~= self.source@);
        assert(out@ =~= before + Self::enc(self.deep_view()));
    }

    fn get(data: &[u8], pos: usize) -> (r: Result<(Event, usize), String>) {
        match <(u64, (u64, ([u8; 32], EventPayload)))>::get(data, pos) {
            Err(e) => Err(e),
            Ok(((seq, (timestamp, (source, payload))), next)) => {
                assert(source.deep_view() =~= source@);
                Ok((Event { seq, timestamp, source, payload }, next))
            },
        }
    }
}

/// A symbol is laid out as base, quote and venue, and a level as price and quantity.
pub proof fn symbols_and_levels_are_laid_out(symbol: SymbolView, level: Level)
    ensures
        Symbol::enc(symbol) == String::enc(symbol.base) + (String::enc(symbol.quote)
            + Venue::enc(symbol.venue)),
        Level::enc(level) == Price::enc(level.price) + Qty::enc(level.qty),
{
}

/// The fields of a book update, a trade and a ticker stand one after the other, from the symbol to
/// the time at the exchange.
pub proof fn market_events_are_laid_out(
    book: OrderBookUpdateEventView,
    trade: TradeEventView,
    ticker: TickerEventView,
)
    ensures
        OrderBookUpdateEvent::enc(book) == Symbol::enc(book.symbol)
            + (<Vec<Level>>::enc(book.bids) + (<Vec<Level>>::enc(book.asks)
            + (bool::enc(book.is_snapshot) + u64::enc(book.exchange_ts)))),
        TradeEvent::enc(trade) == Symbol::enc(trade.symbol) + (Price::enc(trade.price)
            + (Qty::enc(trade.qty) + (Side::enc(trade.side) + u64::enc(trade.exchange_ts)))),
        TickerEvent::enc(ticker) == Symbol::enc(ticker.symbol) + (Price::enc(ticker.bid)
            + (Price::enc(ticker.ask) + (Price::enc(ticker.last) + (Qty::enc(ticker.volume_24h)
            + u64::enc(ticker.exchange_ts))))),
{
}

/// The fields of the events of an order stand one after the other, the order's id first and the
/// venue last.
pub proof fn order_events_are_laid_out(
    new: OrderNewEventView,
    ack: OrderAckEventView,
    fill: OrderFillEventView,
    cancel: OrderCancelEventView,
    reject: OrderRejectEventView,
)
    ensures
        OrderNewEvent::enc(new) == OrderId::enc(new.order_id) + (Symbol::enc(new.symbol)
            + (Side::enc(new.side) + (OrderType::enc(new.order_type) + (Price::enc(new.price)
            + (Qty::enc(new.qty) + (TimeInForce::enc(new.time_in_force)
            + Venue::enc(new.venue))))))),
        OrderAckEvent::enc(ack) == OrderId::enc(ack.order_id)
            + (String::enc(ack.exchange_order_id) + Venue::enc(ack.venue)),
        OrderFillEvent::enc(fill) == OrderId::enc(fill.order_id) + (Symbol::enc(fill.symbol)
            + (Side::enc(fill.side) + (Price::enc(fill.price) + (Qty::enc(fill.qty)
            + (Qty::enc(fill.remaining) + (i64::enc(fill.fee) + (bool::enc(fill.is_maker)
            + Venue::enc(fill.venue)))))))),
        OrderCancelEvent::enc(cancel) == OrderId::enc(cancel.order_id)
            + (String::enc(cancel.reason) + Venue::enc(cancel.venue)),
        OrderRejectEvent::enc(reject) == OrderId::enc(reject.order_id)
            + (String::enc(reject.reason) + Venue::enc(reject.venue)),
{
}

/// The fields of the events of nodes and strategies stand one after the other.
pub proof fn node_events_are_laid_out(
    snapshot: SnapshotEventView,
    heartbeat: HeartbeatEventView,
    join: NodeJoinEventView,
    leave: NodeLeaveEventView,
    signal: SignalEventView,
)
    ensures
        SnapshotEvent::enc(snapshot) == <[u8; 8]>::enc(snapshot.state_hash)
            + u64::enc(snapshot.event_count),
        HeartbeatEvent::enc(heartbeat) == <[u8; 32]>::enc(heartbeat.node_id)
            + u64::enc(heartbeat.uptime_secs),
        NodeJoinEvent::enc(join) == <[u8; 32]>::enc(join.node_id) + (NodeRole::enc(join.role)
            + String::enc(join.addr)),
        NodeLeaveEvent::enc(leave) == <[u8; 32]>::enc(leave.node_id) + String::enc(leave.reason),
        SignalEvent::enc(signal) == String::enc(signal.strategy_id) + (Symbol::enc(signal.symbol)
            + (Side::enc(signal.side) + (u64::enc(signal.strength_bits)
            + String::enc(signal.metadata)))),
{
}

/// An event is laid out as its sequence number, its time, the node it comes from, and its payload,
/// which begins with the number of its kind.
pub proof fn events_are_laid_out(event: EventView)
    ensures
        Event::enc(event) == vstd::bytes::spec_u64_to_le_bytes(event.seq) + (
        vstd::bytes::spec_u64_to_le_bytes(event.timestamp) + (<[u8; 32]>::enc(event.source)
            + EventPayload::enc(event.payload))),
        vstd::bytes::spec_u32_from_le_bytes(EventPayload::enc(event.payload).take(4)) == (
        match event.payload {
            EventPayloadView::OrderBookUpdate(_) => 0u32,
            EventPayloadView::Trade(_) => 1u32,
            EventPayloadView::Ticker(_) => 2u32,
            EventPayloadView::OrderNew(_) => 3u32,
            EventPayloadView::OrderAck(_) => 4u32,
            EventPayloadView::OrderFill(_) => 5u32,
            EventPayloadView::OrderPartialFill(_) => 6u32,
            EventPayloadView::OrderCancel(_) => 7u32,
            EventPayloadView::OrderReject(_) => 8u32,
            EventPayloadView::Snapshot(_) => 9u32,
            EventPayloadView::Heartbeat(_) => 10u32,
            EventPayloadView::NodeJoin(_) => 11u32,
            EventPayloadView::NodeLeave(_) => 12u32,
            EventPayloadView::Signal(_) => 13u32,
        }),
{
    vstd::bytes::lemma_auto_spec_u32_to_from_le_bytes();
    let s = EventPayload::enc(event.payload);
    match event.payload {
        EventPayloadView::OrderBookUpdate(_) => {
            assert(s.take(4) =~= vstd::bytes::spec_u32_to_le_bytes(0));
        },
        EventPayloadView::Trade(_) => {
            assert(s.take(4) =~= vstd::bytes::spec_u32_to_le_bytes(1));
        },
        EventPayloadView::Ticker(_) => {
            assert(s.take(4) =~= vstd::bytes::spec_u32_to_le_bytes(2));
        },
        EventPayloadView::OrderNew(_) => {
            assert(s.take(4) =~= vstd::bytes::spec_u32_to_le_bytes(3));
        },
        EventPayloadView::OrderAck(_) => {
            assert(s.take(4) =~= vstd::bytes::spec_u32_to_le_bytes(4));
        },
        EventPayloadView::OrderFill(_) => {
            assert(s.take(4) =~= vstd::bytes::spec_u32_to_le_bytes(5));
        },
        EventPayloadView::OrderPartialFill(_) => {
            assert(s.take(4) =~= vstd::bytes::spec_u32_to_le_bytes(6));
        },
        EventPayloadView::OrderCancel(_) => {
            assert(s.take(4) =~= vstd::bytes::spec_u32_to_le_bytes(7));
        },
        EventPayloadView::OrderReject(_) => {
            assert(s.take(4) =~= vstd::bytes::spec_u32_to_le_bytes(8));
        },
        EventPayloadView::Snapshot(_) => {
            assert(s.take(4) =~= vstd::bytes::spec_u32_to_le_bytes(9));
        },
        EventPayloadView::Heartbeat(_) => {
            assert(s.take(4) =~= vstd::bytes::spec_u32_to_le_bytes(10));
        },
        EventPayloadView::NodeJoin(_) => {
            assert(s.take(4) =~= vstd::bytes::spec_u32_to_le_bytes(11));
        },
        EventPayloadView::NodeLeave(_) => {
            assert(s.take(4) =~= vstd::bytes::spec_u32_to_le_bytes(12));
        },
        EventPayloadView::Signal(_) => {
            assert(s.take(4) =~= vstd::bytes::spec_u32_to_le_bytes(13));
        },
    }
}

/// The kinds of venues, sides, orders, times in force and roles are numbered from zero, each as four
/// bytes with the least significant first.
pub proof fn kinds_are_numbered(
    venue: Venue,
    side: Side,
    order_type: OrderType,
    role: NodeRole,
    time_in_force: TimeInForce,
)
    ensures
        Venue::enc(venue) == vstd::bytes::spec_u32_to_le_bytes(
            match venue {
                Venue::Binance => 0,
                Venue::Bybit => 1,
                Venue::OKX => 2,
                Venue::Deribit => 3,
                Venue::Coinbase => 4,
                Venue::Kraken => 5,
                Venue::DYDX => 6,
                Venue::Hyperliquid => 7,
                Venue::Simulated => 8,
            },
        ),
        Side::enc(side) == vstd::bytes::spec_u32_to_le_bytes(
            if side == Side::Buy {
                0
            } else {
                1
            },
        ),
        OrderType::enc(order_type) == vstd::bytes::spec_u32_to_le_bytes(
            match order_type {
                OrderType::Market => 0,
                OrderType::Limit => 1,
                OrderType::StopMarket => 2,
                OrderType::StopLimit => 3,
            },
        ),
        NodeRole::enc(role) == vstd::bytes::spec_u32_to_le_bytes(
            match role {
                NodeRole::Leader => 0,
                NodeRole::Follower => 1,
                NodeRole::Observer => 2,
            },
        ),
        TimeInForce::enc(time_in_force) == (match time_in_force {
            TimeInForce::GoodTilCancel => vstd::bytes::spec_u32_to_le_bytes(0),
            TimeInForce::ImmediateOrCancel => vstd::bytes::spec_u32_to_le_bytes(1),
            TimeInForce::FillOrKill => vstd::bytes::spec_u32_to_le_bytes(2),
            TimeInForce::GoodTilDate(date) => vstd::bytes::spec_u32_to_le_bytes(3)
                + vstd::bytes::spec_u64_to_le_bytes(date),
        }),
{
}

/// A price is laid out as its eight bytes, a quantity as its eight bytes, and an order id as its
/// text.
pub proof fn amounts_are_laid_out(price: Price, qty: Qty, id: Seq<char>)
    ensures
        Price::enc(price) == vstd::bytes::spec_u64_to_le_bytes(price.0 as u64),
        Qty::enc(qty) == vstd::bytes::spec_u64_to_le_bytes(qty.0),
        OrderId::enc(id) == String::enc(id),
{
}

} // verus!
