//! Orders and reports of the Binance execution gateway.
use vstd::prelude::*;
use vstd::string::*;
use vstd::utf8::*;

use crate::event::{
    Event, EventPayload, EventPayloadView, EventView, OrderAckEvent, OrderAckEventView,
    OrderCancelEvent, OrderCancelEventView, OrderFillEvent, OrderFillEventView, OrderRejectEvent,
    OrderRejectEventView,
};
use crate::json;
use crate::json::{Json, JsonView};
use crate::node;
use crate::node::NodeId;
use crate::num;
use crate::text;
use crate::types;
use crate::types::{OrderId, OrderType, Price, Qty, Side, Symbol, SymbolView, TimeInForce, Venue};

verus! {

/// Configuration of the gateway.
#[derive(Debug)]
pub struct GatewayConfig {
    pub api_key: String,
    pub api_secret: String,
    pub base_url: String,
    pub recv_window: u64,
    pub price_decimals: u8,
    pub qty_decimals: u8,
}

impl GatewayConfig {
    /// The configuration for the exchange.
    pub fn binance_spot(api_key: String, api_secret: String) -> (r: Self)
        ensures
            r.api_key@ == api_key@,
            r.api_secret@ == api_secret@,
            r.base_url@ == "https://api.binance.com"@,
            r.recv_window == 5000,
            r.price_decimals == 2,
            r.qty_decimals == 8,
    {
        GatewayConfig {
            api_key,
            api_secret,
            base_url: "https://api.binance.com".to_owned(),
            recv_window: 5000,
            price_decimals: 2,
            qty_decimals: 8,
        }
    }

    /// The configuration for the exchange's test network.
    pub fn binance_testnet(api_key: String, api_secret: String) -> (r: Self)
        ensures
            r.api_key@ == api_key@,
            r.api_secret@ == api_secret@,
            r.base_url@ == "https://testnet.binance.vision"@,
            r.recv_window == 5000,
            r.price_decimals == 2,
            r.qty_decimals == 8,
    {
        GatewayConfig {
            api_key,
            api_secret,
            base_url: "https://testnet.binance.vision".to_owned(),
            recv_window: 5000,
            price_decimals: 2,
            qty_decimals: 8,
        }
    }
}

/// How the exchange names a side.
pub open spec fn side_name(side: Side) -> Seq<char> {
    match side {
        Side::Buy => "BUY"@,
        Side::Sell => "SELL"@,
    }
}

/// How the exchange names an order type.
pub open spec fn type_code(order_type: OrderType) -> Seq<char> {
    match order_type {
        OrderType::Market => "MARKET"@,
        OrderType::Limit => "LIMIT"@,
        OrderType::StopMarket => "STOP_LOSS"@,
        OrderType::StopLimit => "STOP_LOSS_LIMIT"@,
    }
}

/// How the exchange names a time in force; what it does not know is good until canceled.
pub open spec fn tif_code(time_in_force: TimeInForce) -> Seq<char> {
    match time_in_force {
        TimeInForce::ImmediateOrCancel => "IOC"@,
        TimeInForce::FillOrKill => "FOK"@,
        _ => "GTC"@,
    }
}

/// Whether an order of a type has a price.
pub open spec fn is_priced(order_type: OrderType) -> bool {
    order_type == OrderType::Limit || order_type == OrderType::StopLimit
}

/// An order, with its numbers as decimal texts.
pub struct OrderRequest {
    pub order_id: OrderId,
    pub symbol: Symbol,
    pub side: Side,
    pub order_type: OrderType,
    pub price: String,
    pub qty: String,
    pub time_in_force: TimeInForce,
}

/// Named parameters of a request.
pub type Params = Seq<(Seq<char>, Seq<char>)>;

/// The parameters of an order.
pub open spec fn order_params(order: OrderRequest, recv_window: u64, ts_ms: u64) -> Params {
    seq![
        ("symbol"@, order.symbol@.base + order.symbol@.quote),
        ("side"@, side_name(order.side)),
        ("type"@, type_code(order.order_type)),
        ("quantity"@, order.qty@),
        ("newClientOrderId"@, order.order_id@),
        ("recvWindow"@, text::decimal(recv_window as nat)),
    ] + (if is_priced(order.order_type) {
        seq![("price"@, order.price@), ("timeInForce"@, tif_code(order.time_in_force))]
    } else {
        Seq::empty()
    }) + seq![("timestamp"@, text::decimal(ts_ms as nat))]
}

/// The parameters of the cancellation of an order.
pub open spec fn cancel_params(
    order_id: Seq<char>,
    symbol: SymbolView,
    recv_window: u64,
    ts_ms: u64,
) -> Params {
    seq![
        ("symbol"@, symbol.base + symbol.quote),
        ("origClientOrderId"@, order_id),
        ("recvWindow"@, text::decimal(recv_window as nat)),
        ("timestamp"@, text::decimal(ts_ms as nat)),
    ]
}

/// The parameters of the cancellation of all open orders of a symbol.
pub open spec fn cancel_all_params(symbol: Seq<char>, recv_window: u64, ts_ms: u64) -> Params {
    seq![
        ("symbol"@, symbol),
        ("recvWindow"@, text::decimal(recv_window as nat)),
        ("timestamp"@, text::decimal(ts_ms as nat)),
    ]
}

/// Parameters as a query string.
pub open spec fn query(params: Params) -> Seq<char> {
    text::joined(
        params.map_values(|p: (Seq<char>, Seq<char>)| p.0 + "="@ + p.1),
        "&"@,
    )
}

/// A number in decimal.
fn decimal_text(n: u64) -> (r: String)
    ensures
        r@ == text::decimal(n as nat),
{
    let mut out = String::new();
    text::push_u64(&mut out, n);
    assert(out@ =~= text::decimal(n as nat));
    out
}

/// The pair without a separator, as the exchange writes it.
fn exchange_symbol(symbol: &Symbol) -> (r: String)
    ensures
        r@ == symbol@.base + symbol@.quote,
{
    let mut out = symbol.base.as_str().to_owned();
    out.append(symbol.quote.as_str());
    out
}

/// The parameters of an order.
pub fn list_order_params(order: &OrderRequest, recv_window: u64, ts_ms: u64) -> (r: Vec<
    (&'static str, String),
>)
    ensures
        r.deep_view() == order_params(*order, recv_window, ts_ms),
{
    let side = match order.side {
        Side::Buy => "BUY",
        Side::Sell => "SELL",
    };
    let kind = match order.order_type {
        OrderType::Market => "MARKET",
        OrderType::Limit => "LIMIT",
        OrderType::StopMarket => "STOP_LOSS",
        OrderType::StopLimit => "STOP_LOSS_LIMIT",
    };
    let mut params: Vec<(&'static str, String)> = Vec::new();
    params.push(("symbol", exchange_symbol(&order.symbol)));
    params.push(("side", side.to_owned()));
    params.push(("type", kind.to_owned()));
    params.push(("quantity", order.qty.as_str().to_owned()));
    params.push(("newClientOrderId", order.order_id.0.as_str().to_owned()));
    params.push(("recvWindow", decimal_text(recv_window)));
    if order.order_type == OrderType::Limit || order.order_type == OrderType::StopLimit {
        let tif = match order.time_in_force {
            TimeInForce::ImmediateOrCancel => "IOC",
            TimeInForce::FillOrKill => "FOK",
            _ => "GTC",
        };
        params.push(("price", order.price.as_str().to_owned()));
        params.push(("timeInForce", tif.to_owned()));
    }
    params.push(("timestamp", decimal_text(ts_ms)));
    assert(params.deep_view() =~= order_params(*order, recv_window, ts_ms));
    params
}

/// The parameters of the cancellation of an order.
pub fn list_cancel_params(order_id: &OrderId, symbol: &Symbol, recv_window: u64, ts_ms: u64) -> (r:
    Vec<(&'static str, String)>)
    ensures
        r.deep_view() == cancel_params(order_id@, symbol@, recv_window, ts_ms),
{
    let mut params: Vec<(&'static str, String)> = Vec::new();
    params.push(("symbol", exchange_symbol(symbol)));
    params.push(("origClientOrderId", order_id.0.as_str().to_owned()));
    params.push(("recvWindow", decimal_text(recv_window)));
    params.push(("timestamp", decimal_text(ts_ms)));
    assert(params.deep_view() =~= cancel_params(order_id@, symbol@, recv_window, ts_ms));
    params
}

/// The parameters of the cancellation of all open orders of a symbol.
pub fn list_cancel_all_params(symbol: &str, recv_window: u64, ts_ms: u64) -> (r: Vec<
    (&'static str, String),
>)
    ensures
        r.deep_view() == cancel_all_params(symbol@, recv_window, ts_ms),
{
    let mut params: Vec<(&'static str, String)> = Vec::new();
    params.push(("symbol", symbol.to_owned()));
    params.push(("recvWindow", decimal_text(recv_window)));
    params.push(("timestamp", decimal_text(ts_ms)));
    assert(params.deep_view() =~= cancel_all_params(symbol@, recv_window, ts_ms));
    params
}

/// Parameters as a query string.
pub fn build_query_string(params: &Vec<(&'static str, String)>) -> (r: String)
    ensures
        r@ == query(params.deep_view()),
{
    let ghost views = params.deep_view();
    let mut parts: Vec<String> = Vec::new();
    let mut i: usize = 0;
    while i < params.len()
        invariant
            i <= params@.len(),
            parts@.len() == i,
            views == params.deep_view(),
            forall|k: int|
                0 <= k < i ==> (#[trigger] parts@[k])@ == views[k].0 + "="@ + views[k].1,
        decreases params.len() - i,
    {
        assert(views[i as int] == (params@[i as int].0@, params@[i as int].1@));
        let mut part = params[i].0.to_owned();
        part.append("=");
        part.append(params[i].1.as_str());
        parts.push(part);
        i += 1;
    }
    assert(parts.deep_view() =~= views.map_values(
        |p: (Seq<char>, Seq<char>)| p.0 + "="@ + p.1,
    ));
    text::join(&parts, "&")
}

/// The longest key and the longest message that are signed, in bytes.
pub const MAX_SIGNED_BYTES: u64 = 1_152_921_504_606_846_976;

/// The HMAC-SHA-256 tag of a message under a key.
pub uninterp spec fn hmac_sha256(key: Seq<u8>, message: Seq<u8>) -> Seq<u8>;

/// `ring::hmac::sign` with a `ring::hmac::Key` for SHA-256. The tag depends on the key and the
/// message alone. Inputs longer than SHA-256 can take are left out.
#[verifier::external_body]
fn hmac_of(key: &[u8], message: &[u8]) -> (r: Vec<u8>)
    requires
        key@.len() <= MAX_SIGNED_BYTES,
        message@.len() <= MAX_SIGNED_BYTES,
    ensures
        r@ == hmac_sha256(key@, message@),
        r@.len() == 32,
{
    let key = ring::hmac::Key::new(ring::hmac::HMAC_SHA256, key);
    ring::hmac::sign(&key, message).as_ref().to_vec()
}

/// Whether a secret and a message are short enough to sign.
pub open spec fn signable(secret: Seq<char>, message: Seq<char>) -> bool {
    encode_utf8(secret).len() <= MAX_SIGNED_BYTES && encode_utf8(message).len()
        <= MAX_SIGNED_BYTES
}

/// Whether a secret and a message are short enough to sign.
pub fn is_signable(secret: &str, message: &str) -> (r: bool)
    ensures
        r == signable(secret@, message@),
{
    secret.as_bytes().len() as u64 <= MAX_SIGNED_BYTES && message.as_bytes().len() as u64
        <= MAX_SIGNED_BYTES
}

/// The signature of a message under a secret: its tag in hexadecimal.
pub open spec fn signature(secret: Seq<char>, message: Seq<char>) -> Seq<char> {
    node::hex_text(hmac_sha256(encode_utf8(secret), encode_utf8(message)))
}

/// The signature of a message under a secret.
pub fn sign_hmac_sha256(secret: &str, message: &str) -> (r: String)
    requires
        signable(secret@, message@),
    ensures
        r@ == signature(secret@, message@),
{
    let tag = hmac_of(secret.as_bytes(), message.as_bytes());
    node::hex_encode(tag.as_slice())
}

/// The address of a request with its query and the query's signature.
pub open spec fn signed_address(
    base_url: Seq<char>,
    endpoint: Seq<char>,
    query_string: Seq<char>,
    tag: Seq<char>,
) -> Seq<char> {
    base_url + endpoint + "?"@ + query_string + "&signature="@ + tag
}

/// The address of a request with its query and the query's signature.
pub fn signed_url(base_url: &str, endpoint: &str, query_string: &str, tag: &str) -> (r: String)
    ensures
        r@ == signed_address(base_url@, endpoint@, query_string@, tag@),
{
    let mut url = base_url.to_owned();
    url.append(endpoint);
    url.append("?");
    url.append(query_string);
    url.append("&signature=");
    url.append(tag);
    url
}

/// The address that a request with parameters is sent to, signed with the secret.
pub fn request_url(
    config: &GatewayConfig,
    endpoint: &str,
    params: &Vec<(&'static str, String)>,
) -> (r: String)
    requires
        signable(config.api_secret@, query(params.deep_view())),
    ensures
        r@ == signed_address(
            config.base_url@,
            endpoint@,
            query(params.deep_view()),
            signature(config.api_secret@, query(params.deep_view())),
        ),
{
    let query_string = build_query_string(params);
    let tag = sign_hmac_sha256(config.api_secret.as_str(), query_string.as_str());
    signed_url(config.base_url.as_str(), endpoint, query_string.as_str(), tag.as_str())
}

/// One fill in the exchange's answer to an order, with its numbers scaled to integers.
#[derive(Debug, Clone, Copy)]
pub struct ResponseFill {
    pub price: Price,
    pub qty: Qty,
    /// What is left of the order after all fills.
    pub remaining: Qty,
    pub fee: i64,
    pub is_maker: bool,
}

/// The exchange's answer to an order that it took.
#[derive(Debug)]
pub struct OrderResponse {
    pub order_id: u64,
    /// Whether nothing is left of the order.
    pub settled: bool,
    pub fills: Vec<ResponseFill>,
}

/// What became of an order that was sent.
#[derive(Debug)]
pub enum OrderReply {
    /// The exchange took it.
    Accepted(OrderResponse),
    /// The exchange took it, but its answer cannot be read.
    Unreadable,
    /// The exchange refused it.
    Refused { code: i32, msg: String },
    /// The exchange refused it in other words.
    HttpError { status: String, body: String },
    /// It did not reach the exchange.
    NetworkError(String),
}

/// What came back for an order that was sent.
#[derive(Debug)]
pub enum OrderAnswer {
    /// The exchange answered, with success or not. What its body says is given where it can be
    /// read as an order, or as a code and a message.
    Received {
        success: bool,
        status: String,
        body: String,
        order: Option<OrderResponse>,
        refusal: Option<(i32, String)>,
    },
    /// Nothing came back, and why.
    Lost(String),
}

/// What an answer says of an order.
pub open spec fn reply_to(answer: OrderAnswer) -> OrderReply {
    match answer {
        OrderAnswer::Received { success, status, body, order, refusal } => if success {
            match order {
                Some(response) => OrderReply::Accepted(response),
                None => OrderReply::Unreadable,
            }
        } else {
            match refusal {
                Some((code, msg)) => OrderReply::Refused { code, msg },
                None => OrderReply::HttpError { status, body },
            }
        },
        OrderAnswer::Lost(why) => OrderReply::NetworkError(why),
    }
}

/// What an answer says of an order.
pub fn order_reply(answer: OrderAnswer) -> (r: OrderReply)
    ensures
        r == reply_to(answer),
{
    match answer {
        OrderAnswer::Received { success, status, body, order, refusal } => if success {
            match order {
                Some(response) => OrderReply::Accepted(response),
                None => OrderReply::Unreadable,
            }
        } else {
            match refusal {
                Some((code, msg)) => OrderReply::Refused { code, msg },
                None => OrderReply::HttpError { status, body },
            }
        },
        OrderAnswer::Lost(why) => OrderReply::NetworkError(why),
    }
}

/// The order that a reply is about, and where its events come from.
pub struct OrderOrigin {
    pub order_id: OrderId,
    pub symbol: Symbol,
    pub side: Side,
    pub venue: Venue,
    pub source: NodeId,
    pub seq_base: u64,
    pub timestamp: u64,
}

/// The payload of a fill.
pub open spec fn fill_payload(
    origin: OrderOrigin,
    fill: ResponseFill,
    complete: bool,
) -> EventPayloadView {
    let data = OrderFillEventView {
        order_id: origin.order_id@,
        symbol: origin.symbol@,
        side: origin.side,
        price: fill.price,
        qty: fill.qty,
        remaining: fill.remaining,
        fee: fill.fee,
        is_maker: fill.is_maker,
        venue: origin.venue,
    };
    if complete {
        EventPayloadView::OrderFill(data)
    } else {
        EventPayloadView::OrderPartialFill(data)
    }
}

/// The events of an order that the exchange took: its acknowledgement, then its fills. The last
/// fill completes the order where nothing is left of it.
pub open spec fn accepted_events(origin: OrderOrigin, response: OrderResponse) -> Seq<EventView> {
    seq![
        EventView {
            seq: origin.seq_base,
            timestamp: origin.timestamp,
            source: origin.source@,
            payload: EventPayloadView::OrderAck(
                OrderAckEventView {
                    order_id: origin.order_id@,
                    exchange_order_id: text::decimal(response.order_id as nat),
                    venue: origin.venue,
                },
            ),
        },
    ] + Seq::new(
        response.fills@.len(),
        |i: int|
            EventView {
                seq: (origin.seq_base + 1 + i) as u64,
                timestamp: origin.timestamp,
                source: origin.source@,
                payload: fill_payload(
                    origin,
                    response.fills@[i],
                    i == response.fills@.len() - 1 && response.settled,
                ),
            },
    )
}

/// The event of an order that was not taken.
pub open spec fn rejected_event(origin: OrderOrigin, reason: Seq<char>) -> EventView {
    EventView {
        seq: origin.seq_base,
        timestamp: origin.timestamp,
        source: origin.source@,
        payload: EventPayloadView::OrderReject(
            OrderRejectEventView { order_id: origin.order_id@, reason, venue: origin.venue },
        ),
    }
}

/// The events that follow from a reply to an order.
pub open spec fn reply_events(origin: OrderOrigin, reply: OrderReply) -> Seq<EventView> {
    match reply {
        OrderReply::Accepted(response) => accepted_events(origin, response),
        OrderReply::Unreadable => Seq::empty(),
        OrderReply::Refused { code, msg } => seq![
            rejected_event(
                origin,
                "Binance "@ + text::signed_decimal(code as int) + ": "@ + msg@,
            ),
        ],
        OrderReply::HttpError { status, body } => seq![
            rejected_event(origin, "HTTP "@ + status@ + ": "@ + body@),
        ],
        OrderReply::NetworkError(e) => seq![rejected_event(origin, "network error: "@ + e@)],
    }
}

/// The event of an order that was not taken.
fn reject_event(origin: &OrderOrigin, reason: String) -> (r: Event)
    ensures
        r@ == rejected_event(*origin, reason@),
{
    Event::new(
        origin.seq_base,
        origin.timestamp,
        origin.source,
        EventPayload::OrderReject(
            OrderRejectEvent { order_id: origin.order_id.clone(), reason, venue: origin.venue },
        ),
    )
}

/// The events of an order that the exchange took.
fn handle_order_response(origin: &OrderOrigin, response: &OrderResponse) -> (r: Vec<Event>)
    requires
        origin.seq_base + response.fills@.len() <= u64::MAX,
    ensures
        r.deep_view() == accepted_events(*origin, *response),
{
    let ghost views = accepted_events(*origin, *response);
    let mut events: Vec<Event> = Vec::new();
    events.push(
        Event::new(
            origin.seq_base,
            origin.timestamp,
            origin.source,
            EventPayload::OrderAck(
                OrderAckEvent {
                    order_id: origin.order_id.clone(),
                    exchange_order_id: decimal_text(response.order_id),
                    venue: origin.venue,
                },
            ),
        ),
    );
    let n: usize = response.fills.len();
    let mut i: usize = 0;
    while i < n
        invariant
            i <= n,
            n == response.fills@.len(),
            origin.seq_base + n <= u64::MAX,
            views == accepted_events(*origin, *response),
            events@.len() == i + 1,
            forall|k: int| 0 <= k <= i ==> (#[trigger] events@[k])@ == views[k],
        decreases n - i,
    {
        let fill: ResponseFill = response.fills[i];
        let data = OrderFillEvent {
            order_id: origin.order_id.clone(),
            symbol: origin.symbol.clone(),
            side: origin.side,
            price: fill.price,
            qty: fill.qty,
            remaining: fill.remaining,
            fee: fill.fee,
            is_maker: fill.is_maker,
            venue: origin.venue,
        };
        let payload = if i == n - 1 && response.settled {
            EventPayload::OrderFill(data)
        } else {
            EventPayload::OrderPartialFill(data)
        };
        events.push(
            Event::new(
                origin.seq_base + 1 + i as u64,
                origin.timestamp,
                origin.source,
                payload,
            ),
        );
        assert(events@[i + 1]@ == views[i + 1]);
        i += 1;
    }
    assert(events.deep_view() =~= views);
    events
}

/// The events that follow from a reply to an order.
pub fn on_order_reply(origin: &OrderOrigin, reply: &OrderReply) -> (r: Vec<Event>)
    requires
        reply matches OrderReply::Accepted(response) ==> origin.seq_base + response.fills@.len()
            <= u64::MAX,
    ensures
        r.deep_view() == reply_events(*origin, *reply),
{
    let mut events: Vec<Event> = Vec::new();
    match reply {
        OrderReply::Accepted(response) => {
            return handle_order_response(origin, response);
        },
        OrderReply::Unreadable => {},
        OrderReply::Refused { code, msg } => {
            let mut reason = "Binance ".to_owned();
            text::push_i64(&mut reason, *code as i64);
            reason.append(": ");
            reason.append(msg.as_str());
            events.push(reject_event(origin, reason));
        },
        OrderReply::HttpError { status, body } => {
            let mut reason = "HTTP ".to_owned();
            reason.append(status.as_str());
            reason.append(": ");
            reason.append(body.as_str());
            events.push(reject_event(origin, reason));
        },
        OrderReply::NetworkError(e) => {
            let mut reason = "network error: ".to_owned();
            reason.append(e.as_str());
            events.push(reject_event(origin, reason));
        },
    }
    assert(events.deep_view() =~= reply_events(*origin, *reply));
    events
}

/// An accepted order that has fills and is settled ends with a fill that completes it, and with
/// no other such fill.
pub proof fn settled_orders_complete_once(origin: OrderOrigin, response: OrderResponse, i: int)
    requires
        0 <= i <= response.fills@.len(),
    ensures
        accepted_events(origin, response)[i].payload is OrderFill <==> i > 0 && i
            == response.fills@.len() && response.settled,
{
}

/// Whether an answer says that an order was taken.
pub open spec fn is_taken(answer: OrderAnswer) -> bool {
    answer matches OrderAnswer::Received { success, .. } && success
}

/// An order that was not taken is rejected, by one event and no other.
pub proof fn failed_orders_are_rejected(origin: OrderOrigin, answer: OrderAnswer)
    requires
        !is_taken(answer),
    ensures
        ({
            let events = reply_events(origin, reply_to(answer));
            &&& events.len() == 1
            &&& events[0].payload matches EventPayloadView::OrderReject(reject)
                && reject.order_id == origin.order_id@
        }),
{
}

/// The event of an order that was canceled on request, where the exchange agreed.
pub fn on_cancel_reply(
    success: bool,
    order_id: &OrderId,
    venue: Venue,
    source: NodeId,
    seq: u64,
    timestamp: u64,
) -> (r: Option<Event>)
    ensures
        match r {
            Some(event) => success && event@ == (EventView {
                seq,
                timestamp,
                source: source@,
                payload: EventPayloadView::OrderCancel(
                    OrderCancelEventView { order_id: order_id@, reason: "requested"@, venue },
                ),
            }),
            None => !success,
        },
{
    if success {
        Some(
            Event::new(
                seq,
                timestamp,
                source,
                EventPayload::OrderCancel(
                    OrderCancelEvent {
                        order_id: order_id.clone(),
                        reason: "requested".to_owned(),
                        venue,
                    },
                ),
            ),
        )
    } else {
        None
    }
}

/// How many orders the answer to a cancellation of all orders lists, cut to 32 bits; none where
/// it is no list.
pub open spec fn listed(body: Option<JsonView>) -> u32 {
    match body {
        Some(v) => match v.items() {
            Some(items) => items.len() as usize as u32,
            None => 0,
        },
        None => 0,
    }
}

/// How many orders the answer to a cancellation of all orders lists.
pub fn count_listed(body: &Json) -> (r: u32)
    ensures
        r == listed(Some(body.model())),
{
    match body.items() {
        Some(items) => {
            let n: usize = items.len();
            n as u32
        },
        None => 0,
    }
}

/// How many orders were canceled, by the answer to a cancellation of all orders.
pub fn canceled_count(success: bool, body: &str) -> (r: u32)
    ensures
        r == (if success {
            listed(json::json_text(body@))
        } else {
            0
        }),
{
    if !success {
        return 0;
    }
    match Json::parse(body) {
        Some(v) => count_listed(&v),
        None => 0,
    }
}

/// Where a key for the user data stream is requested.
pub fn listen_key_url(base_url: &str) -> (r: String)
    ensures
        r@ == base_url@ + "/api/v3/userDataStream"@,
{
    let mut url = base_url.to_owned();
    url.append("/api/v3/userDataStream");
    url
}

/// Where a key for the user data stream is kept alive.
pub fn keepalive_url(base_url: &str, listen_key: &str) -> (r: String)
    ensures
        r@ == base_url@ + "/api/v3/userDataStream"@ + "?listenKey="@ + listen_key@,
{
    let mut url = listen_key_url(base_url);
    url.append("?listenKey=");
    url.append(listen_key);
    url
}

/// Where the user data stream is.
pub fn user_stream_url(base_url: &str, listen_key: &str) -> (r: String)
    ensures
        r@ == (if text::holds(base_url@, "testnet"@) {
            "wss://stream.testnet.binance.vision"@
        } else {
            "wss://stream.binance.com:9443"@
        }) + "/ws/"@ + listen_key@,
{
    let mut url = if text::contains(base_url, "testnet") {
        "wss://stream.testnet.binance.vision".to_owned()
    } else {
        "wss://stream.binance.com:9443".to_owned()
    };
    url.append("/ws/");
    url.append(listen_key);
    url
}

/// Milliseconds to wait before connecting again for the first time.
pub const FIRST_BACKOFF_MS: u64 = 1000;

/// Milliseconds to wait at most before connecting again.
pub const MAX_BACKOFF_MS: u64 = 30_000;

/// How long to wait the next time: twice as long, up to the largest wait.
pub open spec fn longer_wait(backoff_ms: u64) -> u64 {
    num::min(2 * backoff_ms, MAX_BACKOFF_MS as int) as u64
}

/// How long to wait the next time: twice as long, up to the largest wait.
pub fn next_backoff(backoff_ms: u64) -> (r: u64)
    requires
        backoff_ms <= u64::MAX / 2,
    ensures
        r == longer_wait(backoff_ms),
{
    let doubled: u64 = backoff_ms * 2;
    if doubled < MAX_BACKOFF_MS {
        doubled
    } else {
        MAX_BACKOFF_MS
    }
}

/// What happens to the user data stream.
#[derive(Debug, Clone, Copy, PartialEq, Eq, Structural)]
pub enum StreamEvent {
    /// It was connected.
    Connected,
    /// It could not be connected.
    ConnectFailed,
    /// It broke or was closed.
    Broken,
    /// Nobody takes its events any more.
    ReceiverGone,
}

/// What is done with the user data stream next.
#[derive(Debug, Clone, Copy, PartialEq, Eq, Structural)]
pub enum StreamAction {
    /// Its messages are read.
    Listen,
    /// It is connected again after a wait.
    Reconnect { after_ms: u64 },
    /// It is given up.
    Stop,
}

/// How long to wait the next time after something happened to the stream, and what is done.
pub open spec fn stepped_stream(backoff_ms: u64, event: StreamEvent) -> (u64, StreamAction) {
    match event {
        StreamEvent::Connected => (FIRST_BACKOFF_MS, StreamAction::Listen),
        StreamEvent::ConnectFailed | StreamEvent::Broken => (
            longer_wait(backoff_ms),
            StreamAction::Reconnect { after_ms: backoff_ms },
        ),
        StreamEvent::ReceiverGone => (backoff_ms, StreamAction::Stop),
    }
}

/// How long to wait the next time after something happened to the stream, and what is done: a
/// connection that fails or breaks is made again, each time after a longer wait until one is made.
pub fn stream_step(backoff_ms: u64, event: StreamEvent) -> (r: (u64, StreamAction))
    requires
        backoff_ms <= u64::MAX / 2,
    ensures
        r == stepped_stream(backoff_ms, event),
{
    match event {
        StreamEvent::Connected => (FIRST_BACKOFF_MS, StreamAction::Listen),
        StreamEvent::ConnectFailed | StreamEvent::Broken => (
            next_backoff(backoff_ms),
            StreamAction::Reconnect { after_ms: backoff_ms },
        ),
        StreamEvent::ReceiverGone => (backoff_ms, StreamAction::Stop),
    }
}

/// The next wait after a number of things that happened to the stream, from the first wait on.
pub open spec fn wait_after(events: Seq<StreamEvent>) -> u64
    decreases events.len(),
{
    if events.len() == 0 {
        FIRST_BACKOFF_MS
    } else {
        stepped_stream(wait_after(events.drop_last()), events.last()).0
    }
}

/// Whatever happens to the stream, the next wait lies between the first and the largest one.
pub proof fn waits_are_bounded(events: Seq<StreamEvent>)
    ensures
        FIRST_BACKOFF_MS <= wait_after(events) <= MAX_BACKOFF_MS,
    decreases events.len(),
{
    if events.len() > 0 {
        waits_are_bounded(events.drop_last());
    }
}

/// A fill that the user data stream reports, with its decimals still as text.
#[derive(Debug)]
pub struct FillReport {
    pub seq: u64,
    pub timestamp: u64,
    pub order_id: OrderId,
    pub symbol: Symbol,
    pub side: Side,
    pub price: String,
    pub qty: String,
    pub commission: Option<String>,
    /// How much was ordered.
    pub ordered: Option<String>,
    /// How much was filled so far.
    pub filled: Option<String>,
    pub is_maker: bool,
    /// Whether the order is filled.
    pub complete: bool,
}

/// The contents of a [`FillReport`].
#[verifier::ext_equal]
pub struct FillReportView {
    pub seq: u64,
    pub timestamp: u64,
    pub order_id: Seq<char>,
    pub symbol: SymbolView,
    pub side: Side,
    pub price: Seq<char>,
    pub qty: Seq<char>,
    pub commission: Option<Seq<char>>,
    pub ordered: Option<Seq<char>>,
    pub filled: Option<Seq<char>>,
    pub is_maker: bool,
    pub complete: bool,
}

impl View for FillReport {
    type V = FillReportView;

    open spec fn view(&self) -> FillReportView {
        FillReportView {
            seq: self.seq,
            timestamp: self.timestamp,
            order_id: self.order_id@,
            symbol: self.symbol@,
            side: self.side,
            price: self.price@,
            qty: self.qty@,
            commission: self.commission.deep_view(),
            ordered: self.ordered.deep_view(),
            filled: self.filled.deep_view(),
            is_maker: self.is_maker,
            complete: self.complete,
        }
    }
}

/// A report of the user data stream.
#[derive(Debug)]
pub enum ExecutionReport {
    /// A fill.
    Fill(FillReport),
    /// The order was closed without a fill; the event that says so.
    Closed(Event),
}

/// The contents of an [`ExecutionReport`].
pub enum ExecutionReportView {
    Fill(FillReportView),
    Closed(EventView),
}

impl View for ExecutionReport {
    type V = ExecutionReportView;

    open spec fn view(&self) -> ExecutionReportView {
        match self {
            ExecutionReport::Fill(f) => ExecutionReportView::Fill(f@),
            ExecutionReport::Closed(e) => ExecutionReportView::Closed(e@),
        }
    }
}

impl FillReport {
    /// The event of the fill, with its numbers scaled to integers.
    pub fn into_event(self, fill: ResponseFill, venue: Venue, source: NodeId) -> (r: Event)
        ensures
            r@ == (EventView {
                seq: self@.seq,
                timestamp: self@.timestamp,
                source: source@,
                payload: {
                    let data = OrderFillEventView {
                        order_id: self@.order_id,
                        symbol: self@.symbol,
                        side: self@.side,
                        price: fill.price,
                        qty: fill.qty,
                        remaining: fill.remaining,
                        fee: fill.fee,
                        is_maker: self@.is_maker,
                        venue,
                    };
                    if self@.complete {
                        EventPayloadView::OrderFill(data)
                    } else {
                        EventPayloadView::OrderPartialFill(data)
                    }
                },
            }),
    {
        let complete = self.complete;
        let data = OrderFillEvent {
            order_id: self.order_id,
            symbol: self.symbol,
            side: self.side,
            price: fill.price,
            qty: fill.qty,
            remaining: fill.remaining,
            fee: fill.fee,
            is_maker: self.is_maker,
            venue,
        };
        let payload = if complete {
            EventPayload::OrderFill(data)
        } else {
            EventPayload::OrderPartialFill(data)
        };
        Event::new(self.seq, self.timestamp, source, payload)
    }
}

/// The side that the exchange names.
pub open spec fn side_of(name: Seq<char>) -> Option<Side> {
    if name == "BUY"@ {
        Some(Side::Buy)
    } else if name == "SELL"@ {
        Some(Side::Sell)
    } else {
        None
    }
}

/// The symbol in a report: only `USDT` is known as a quote currency.
pub open spec fn reported_symbol(name: Seq<char>, venue: Venue) -> SymbolView {
    if text::has_suffix(name, "USDT"@) {
        SymbolView { base: types::uppercase(name.take(name.len() - 4)), quote: "USDT"@, venue }
    } else {
        SymbolView { base: types::uppercase(name), quote: ""@, venue }
    }
}

/// The time of a report in milliseconds; zero where it has none.
pub open spec fn report_ms(v: JsonView) -> u64 {
    match v.number_at("E"@) {
        Some(ms) => ms,
        None => 0,
    }
}

/// Whether the time of a report can be given in nanoseconds.
pub open spec fn time_fits(v: JsonView) -> bool {
    report_ms(v) * 1_000_000 <= u64::MAX
}

/// What all reports have: the order, its status, what happened, the side, and the symbol. Other
/// messages have none of it.
pub open spec fn report_parts(v: JsonView) -> Option<
    (Seq<char>, Seq<char>, Seq<char>, Side, Seq<char>),
> {
    match (
        v.text_at("e"@),
        v.text_at("c"@),
        v.text_at("X"@),
        v.text_at("x"@),
        v.text_at("S"@),
        v.text_at("s"@),
    ) {
        (Some(kind), Some(order), Some(status), Some(happened), Some(side), Some(symbol)) => {
            match (kind == "executionReport"@, side_of(side)) {
                (true, Some(side)) => Some((order, status, happened, side, symbol)),
                _ => None,
            }
        },
        _ => None,
    }
}

/// What a report says, given its sequence number.
pub open spec fn report_of(v: JsonView, venue: Venue, source: Seq<u8>, seq: u64) -> Option<
    ExecutionReportView,
> {
    match report_parts(v) {
        None => None,
        Some((order, status, happened, side, symbol)) => {
            let timestamp = (report_ms(v) * 1_000_000) as u64;
            if happened == "TRADE"@ {
                match (v.text_at("L"@), v.text_at("l"@)) {
                    (Some(price), Some(qty)) => Some(
                        ExecutionReportView::Fill(
                            FillReportView {
                                seq,
                                timestamp,
                                order_id: order,
                                symbol: reported_symbol(symbol, venue),
                                side,
                                price,
                                qty,
                                commission: v.text_at("n"@),
                                ordered: v.text_at("q"@),
                                filled: v.text_at("z"@),
                                is_maker: v.truth_at("m"@) == Some(true),
                                complete: status == "FILLED"@,
                            },
                        ),
                    ),
                    _ => None,
                }
            } else if happened == "CANCELED"@ || happened == "EXPIRED"@ || happened
                == "EXPIRED_IN_MATCH"@ {
                Some(
                    ExecutionReportView::Closed(
                        EventView {
                            seq,
                            timestamp,
                            source,
                            payload: EventPayloadView::OrderCancel(
                                OrderCancelEventView { order_id: order, reason: happened, venue },
                            ),
                        },
                    ),
                )
            } else if happened == "REJECTED"@ {
                Some(
                    ExecutionReportView::Closed(
                        EventView {
                            seq,
                            timestamp,
                            source,
                            payload: EventPayloadView::OrderReject(
                                OrderRejectEventView {
                                    order_id: order,
                                    reason: match v.text_at("r"@) {
                                        Some(reason) => reason,
                                        None => "unknown"@,
                                    },
                                    venue,
                                },
                            ),
                        },
                    ),
                )
            } else {
                None
            }
        },
    }
}

/// The symbol in a report.
fn parse_reported_symbol(name: &str, venue: Venue) -> (r: Symbol)
    ensures
        r@ == reported_symbol(name@, venue),
{
    proof {
        reveal_strlit("USDT");
        reveal_strlit("");
        assert("USDT"@.len() == 4);
        assert(types::ascii_upper("USDT"@) =~= "USDT"@);
        assert(types::ascii_upper(""@) =~= ""@);
    }
    match text::strip_suffix(name, "USDT") {
        Some(base) => Symbol::new(base.as_str(), "USDT", venue),
        None => Symbol::new(name, "", venue),
    }
}

/// The text in a field.
fn owned_text(v: &Json, key: &str) -> (r: Option<String>)
    ensures
        r.deep_view() == v.model().text_at(key@),
{
    match v.text_at(key) {
        Some(s) => Some(s.to_owned()),
        None => None,
    }
}

/// What a report of the user data stream says. Every report takes the next sequence number,
/// whether or not it leads to an event.
pub fn read_execution_report(v: &Json, venue: Venue, source: NodeId, seq: &mut u64) -> (r: Option<
    ExecutionReport,
>)
    requires
        *old(seq) < u64::MAX,
        time_fits(v.model()),
    ensures
        *final(seq) == *old(seq) + (if report_parts(v.model()) is Some {
            1int
        } else {
            0
        }),
        match (r, report_of(v.model(), venue, source@, *final(seq))) {
            (Some(report), Some(view)) => report@ == view,
            (None, None) => true,
            _ => false,
        },
{
    let kind = match v.text_at("e") {
        Some(kind) => kind,
        None => {
            return None;
        },
    };
    if !text::is_same(kind, "executionReport") {
        return None;
    }
    let (order, status, happened, side_text, symbol_text) = match (
        v.text_at("c"),
        v.text_at("X"),
        v.text_at("x"),
        v.text_at("S"),
        v.text_at("s"),
    ) {
        (Some(order), Some(status), Some(happened), Some(side), Some(symbol)) => {
            (order, status, happened, side, symbol)
        },
        _ => {
            return None;
        },
    };
    let side = if text::is_same(side_text, "BUY") {
        Side::Buy
    } else if text::is_same(side_text, "SELL") {
        Side::Sell
    } else {
        return None;
    };
    let ms: u64 = match v.number_at("E") {
        Some(ms) => ms,
        None => 0,
    };
    let timestamp: u64 = ms * 1_000_000;
    *seq = *seq + 1;
    if text::is_same(happened, "TRADE") {
        let price = owned_text(v, "L");
        let qty = owned_text(v, "l");
        match (price, qty) {
            (Some(price), Some(qty)) => Some(
                ExecutionReport::Fill(
                    FillReport {
                        seq: *seq,
                        timestamp,
                        order_id: OrderId(order.to_owned()),
                        symbol: parse_reported_symbol(symbol_text, venue),
                        side,
                        price,
                        qty,
                        commission: owned_text(v, "n"),
                        ordered: owned_text(v, "q"),
                        filled: owned_text(v, "z"),
                        is_maker: match v.truth_at("m") {
                            Some(b) => b,
                            None => false,
                        },
                        complete: text::is_same(status, "FILLED"),
                    },
                ),
            ),
            _ => None,
        }
    } else if text::is_same(happened, "CANCELED") || text::is_same(happened, "EXPIRED")
        || text::is_same(happened, "EXPIRED_IN_MATCH") {
        Some(
            ExecutionReport::Closed(
                Event::new(
                    *seq,
                    timestamp,
                    source,
                    EventPayload::OrderCancel(
                        OrderCancelEvent {
                            order_id: OrderId(order.to_owned()),
                            reason: happened.to_owned(),
                            venue,
                        },
                    ),
                ),
            ),
        )
    } else if text::is_same(happened, "REJECTED") {
        let reason = match v.text_at("r") {
            Some(reason) => reason.to_owned(),
            None => "unknown".to_owned(),
        };
        Some(
            ExecutionReport::Closed(
                Event::new(
                    *seq,
                    timestamp,
                    source,
                    EventPayload::OrderReject(
                        OrderRejectEvent { order_id: OrderId(order.to_owned()), reason, venue },
                    ),
                ),
            ),
        )
    } else {
        None
    }
}

/// What a message of the user data stream says. A message whose time cannot be given in
/// nanoseconds is passed over.
pub fn parse_execution_report(text: &str, venue: Venue, source: NodeId, seq: &mut u64) -> (r:
    Option<ExecutionReport>)
    requires
        *old(seq) < u64::MAX,
    ensures
        match json::json_text(text@) {
            Some(v) => if time_fits(v) {
                &&& *final(seq) == *old(seq) + (if report_parts(v) is Some {
                    1int
                } else {
                    0
                })
                &&& match (r, report_of(v, venue, source@, *final(seq))) {
                    (Some(report), Some(view)) => report@ == view,
                    (None, None) => true,
                    _ => false,
                }
            } else {
                r is None && *final(seq) == *old(seq)
            },
            None => r is None && *final(seq) == *old(seq),
        },
{
    match Json::parse(text) {
        Some(v) => {
            let ms: u64 = match v.number_at("E") {
                Some(ms) => ms,
                None => 0,
            };
            if ms > u64::MAX / 1_000_000 {
                None
            } else {
                read_execution_report(&v, venue, source, seq)
            }
        },
        None => None,
    }
}

/// The exchange's word for a side is read back as that side, and no other word is.
pub proof fn sides_are_read_back(side: Side, name: Seq<char>)
    ensures
        side_of(side_name(side)) == Some(side),
        side_of(name) == Some(side) ==> name == side_name(side),
        side_name(Side::Buy) == seq!['B', 'U', 'Y'],
        side_name(Side::Sell) == seq!['S', 'E', 'L', 'L'],
{
    reveal_strlit("BUY");
    reveal_strlit("SELL");
    assert("BUY"@ =~= seq!['B', 'U', 'Y']);
    assert("SELL"@ =~= seq!['S', 'E', 'L', 'L']);
    assert("BUY"@.len() != "SELL"@.len());
}

/// An order names its symbol, side, type, quantity and own id, and its time last. It has a price
/// and a time in force where it is a limit order, with or without a stop, and only there.
pub proof fn order_parameters(order: OrderRequest, recv_window: u64, ts_ms: u64)
    ensures
        ({
            let params = order_params(order, recv_window, ts_ms);
            let limit = order.order_type == OrderType::Limit || order.order_type
                == OrderType::StopLimit;
            &&& params.len() == (if limit { 9int } else { 7 })
            &&& params[0] == ("symbol"@, order.symbol@.base + order.symbol@.quote)
            &&& params[1] == ("side"@, if order.side == Side::Buy { "BUY"@ } else { "SELL"@ })
            &&& params[2].0 == "type"@
            &&& params[2].1 == (match order.order_type {
                OrderType::Market => "MARKET"@,
                OrderType::Limit => "LIMIT"@,
                OrderType::StopMarket => "STOP_LOSS"@,
                OrderType::StopLimit => "STOP_LOSS_LIMIT"@,
            })
            &&& params[3] == ("quantity"@, order.qty@)
            &&& params[4] == ("newClientOrderId"@, order.order_id@)
            &&& params[5] == ("recvWindow"@, text::decimal(recv_window as nat))
            &&& limit ==> params[6] == ("price"@, order.price@) && params[7].0 == "timeInForce"@
            &&& limit ==> params[7].1 == (match order.time_in_force {
                TimeInForce::ImmediateOrCancel => "IOC"@,
                TimeInForce::FillOrKill => "FOK"@,
                _ => "GTC"@,
            })
            &&& params.last() == ("timestamp"@, text::decimal(ts_ms as nat))
        }),
{
}

/// A cancellation names the symbol and the id that the order was placed under.
pub proof fn cancellations_name_their_order(
    order: OrderRequest,
    recv_window: u64,
    ts_ms: u64,
    later_ms: u64,
)
    ensures
        ({
            let placed = order_params(order, recv_window, ts_ms);
            let canceled = cancel_params(order.order_id@, order.symbol@, recv_window, later_ms);
            let all = cancel_all_params(placed[0].1, recv_window, later_ms);
            &&& canceled.len() == 4 && all.len() == 3
            &&& canceled[0] == placed[0] && all[0] == placed[0]
            &&& canceled[1] == ("origClientOrderId"@, placed[4].1)
            &&& canceled[2] == placed[5] && all[1] == placed[5]
            &&& canceled[3] == ("timestamp"@, text::decimal(later_ms as nat))
            &&& all[2] == canceled[3]
        }),
{
}

/// A query is its parameters, each as `key=value`, with `&` between them.
pub proof fn queries_list_their_parameters(params: Params, key: Seq<char>, value: Seq<char>)
    ensures
        query(Seq::empty()).len() == 0,
        query(seq![(key, value)]) == key + seq!['='] + value,
        params.len() > 0 ==> query(params.push((key, value))) == query(params) + seq!['&'] + key
            + seq!['='] + value,
{
    reveal_strlit("=");
    reveal_strlit("&");
    assert("="@ =~= seq!['=']);
    assert("&"@ =~= seq!['&']);
    let f = |p: (Seq<char>, Seq<char>)| p.0 + "="@ + p.1;
    let part = key + "="@ + value;
    assert(params.push((key, value)).map_values(f) =~= params.map_values(f).push(part));
    assert(seq![(key, value)].map_values(f) =~= seq![part]);
    assert(Seq::<(Seq<char>, Seq<char>)>::empty().map_values(f) =~= Seq::<Seq<char>>::empty());
    text::joins_separate_parts(params.map_values(f), part, "&"@);
    assert(query(params) + "&"@ + part =~= query(params) + seq!['&'] + key + seq!['='] + value);
}

/// An accepted order is acknowledged with the exchange's number in decimal, and each fill follows
/// with the next sequence number, for the same order at the time of the answer, with the price,
/// quantity, rest and fee that the exchange gave. Only the last completes the order, where nothing
/// is left of it.
pub proof fn accepted_orders_are_reported(origin: OrderOrigin, response: OrderResponse, i: int)
    requires
        origin.seq_base + response.fills@.len() <= u64::MAX,
        0 <= i <= response.fills@.len(),
    ensures
        ({
            let events = reply_events(origin, OrderReply::Accepted(response));
            let event = events[i];
            let fill = response.fills@[i - 1];
            &&& events.len() == response.fills@.len() + 1
            &&& event.seq == origin.seq_base + i
            &&& event.timestamp == origin.timestamp && event.source == origin.source@
            &&& i == 0 ==> event.payload == EventPayloadView::OrderAck(
                OrderAckEventView {
                    order_id: origin.order_id@,
                    exchange_order_id: text::decimal(response.order_id as nat),
                    venue: origin.venue,
                },
            )
            &&& i > 0 ==> {
                let completes = response.settled && i == response.fills@.len();
                let data = if completes {
                    event.payload->OrderFill_0
                } else {
                    event.payload->OrderPartialFill_0
                };
                &&& completes ==> event.payload is OrderFill
                &&& !completes ==> event.payload is OrderPartialFill
                &&& data.order_id == origin.order_id@ && data.symbol == origin.symbol@
                &&& data.side == origin.side && data.venue == origin.venue
                &&& data.price == fill.price && data.qty == fill.qty
                &&& data.remaining == fill.remaining && data.fee == fill.fee
                &&& data.is_maker == fill.is_maker
            }
        }),
{
}

/// An answer with success is an acceptance, or nothing that can be used where it cannot be read;
/// any other rejects the order, with one event that names why.
pub proof fn refused_orders_are_reported(
    origin: OrderOrigin,
    status: String,
    body: String,
    code: i32,
    msg: String,
    why: String,
    order: Option<OrderResponse>,
)
    ensures
        ({
            let refused = reply_events(
                origin,
                reply_to(
                    OrderAnswer::Received {
                        success: false,
                        status,
                        body,
                        order,
                        refusal: Some((code, msg)),
                    },
                ),
            );
            let failed = reply_events(
                origin,
                reply_to(
                    OrderAnswer::Received { success: false, status, body, order, refusal: None },
                ),
            );
            let lost = reply_events(origin, reply_to(OrderAnswer::Lost(why)));
            let unread = reply_events(
                origin,
                reply_to(
                    OrderAnswer::Received {
                        success: true,
                        status,
                        body,
                        order: None,
                        refusal: Some((code, msg)),
                    },
                ),
            );
            &&& refused.len() == 1 && failed.len() == 1 && lost.len() == 1 && unread.len() == 0
            &&& refused[0].payload == EventPayloadView::OrderReject(
                OrderRejectEventView {
                    order_id: origin.order_id@,
                    reason: "Binance "@ + text::signed_decimal(code as int) + ": "@ + msg@,
                    venue: origin.venue,
                },
            )
            &&& failed[0].payload == EventPayloadView::OrderReject(
                OrderRejectEventView {
                    order_id: origin.order_id@,
                    reason: "HTTP "@ + status@ + ": "@ + body@,
                    venue: origin.venue,
                },
            )
            &&& lost[0].payload == EventPayloadView::OrderReject(
                OrderRejectEventView {
                    order_id: origin.order_id@,
                    reason: "network error: "@ + why@,
                    venue: origin.venue,
                },
            )
            &&& refused[0].seq == origin.seq_base && refused[0].timestamp == origin.timestamp
            &&& order matches Some(response) ==> reply_to(
                OrderAnswer::Received { success: true, status, body, order, refusal: None },
            ) == OrderReply::Accepted(response)
        }),
{
}

/// The first wait is one second, and each failure doubles the next, up to half a minute; being
/// connected starts over.
pub proof fn waits_double(events: Seq<StreamEvent>, n: nat)
    requires
        forall|i: int| 0 <= i < n ==> #[trigger] events[i] == StreamEvent::ConnectFailed
            || events[i] == StreamEvent::Broken,
        n == events.len(),
    ensures
        n == 0 ==> wait_after(events) == 1_000,
        n == 1 ==> wait_after(events) == 2_000,
        n == 2 ==> wait_after(events) == 4_000,
        n == 3 ==> wait_after(events) == 8_000,
        n == 4 ==> wait_after(events) == 16_000,
        n >= 5 ==> wait_after(events) == 30_000,
        stepped_stream(wait_after(events), StreamEvent::Connected) == (
            1_000u64,
            StreamAction::Listen,
        ),
        stepped_stream(wait_after(events), StreamEvent::Broken).1 == (StreamAction::Reconnect {
            after_ms: wait_after(events),
        }),
        stepped_stream(wait_after(events), StreamEvent::ConnectFailed).1 == (
        StreamAction::Reconnect { after_ms: wait_after(events) }),
        stepped_stream(wait_after(events), StreamEvent::ReceiverGone).1 == StreamAction::Stop,
    decreases n,
{
    if n > 0 {
        let front = events.drop_last();
        assert forall|i: int| 0 <= i < n - 1 implies #[trigger] front[i]
            == StreamEvent::ConnectFailed || front[i] == StreamEvent::Broken by {
            assert(front[i] == events[i]);
        }
        waits_double(front, (n - 1) as nat);
        assert(events[n - 1] == events.last());
    }
}

/// What an execution report says: a trade is a fill at the last price and for the last quantity,
/// and completes the order where its status is `FILLED`. A cancelled or expired order is reported
/// as cancelled, a rejected one as rejected, at the report's time in nanoseconds. Other reports, and
/// those without one of their fields, say nothing.
pub proof fn reports_say_what_happened(v: JsonView, venue: Venue, source: Seq<u8>, seq: u64)
    requires
        time_fits(v),
        v.text_at("e"@) == Some("executionReport"@),
        v.text_at("c"@) is Some,
        v.text_at("X"@) is Some,
        v.text_at("x"@) is Some,
        v.text_at("S"@) is Some,
        v.text_at("s"@) is Some,
        v.text_at("S"@) == Some("BUY"@) || v.text_at("S"@) == Some("SELL"@),
    ensures
        ({
            let happened = v.text_at("x"@)->Some_0;
            let id = v.text_at("c"@)->Some_0;
            let ms = match v.number_at("E"@) {
                Some(ms) => ms as int,
                None => 0,
            };
            match report_of(v, venue, source, seq) {
                Some(ExecutionReportView::Fill(fill)) => {
                    &&& happened == "TRADE"@
                    &&& Some(fill.price) == v.text_at("L"@) && Some(fill.qty) == v.text_at("l"@)
                    &&& fill.complete <==> v.text_at("X"@) == Some("FILLED"@)
                    &&& fill.side == Side::Buy <==> v.text_at("S"@) == Some("BUY"@)
                    &&& fill.order_id == id && fill.seq == seq
                    &&& fill.timestamp == ms * 1_000_000
                    &&& fill.commission == v.text_at("n"@) && fill.ordered == v.text_at("q"@)
                    &&& fill.filled == v.text_at("z"@)
                    &&& fill.is_maker <==> v.truth_at("m"@) == Some(true)
                },
                Some(ExecutionReportView::Closed(event)) => {
                    &&& event.seq == seq && event.source == source
                    &&& event.timestamp == ms * 1_000_000
                    &&& match event.payload {
                        EventPayloadView::OrderCancel(c) => {
                            &&& happened == "CANCELED"@ || happened == "EXPIRED"@ || happened
                                == "EXPIRED_IN_MATCH"@
                            &&& c.order_id == id && c.reason == happened && c.venue == venue
                        },
                        EventPayloadView::OrderReject(c) => {
                            &&& happened == "REJECTED"@
                            &&& c.order_id == id && c.venue == venue
                            &&& v.text_at("r"@) matches Some(reason) ==> c.reason == reason
                        },
                        _ => false,
                    }
                },
                None => {
                    &&& happened == "TRADE"@ ==> v.text_at("L"@) is None || v.text_at("l"@) is None
                    &&& happened != "CANCELED"@ && happened != "EXPIRED"@ && happened
                        != "EXPIRED_IN_MATCH"@ && happened != "REJECTED"@
                },
            }
        }),
{
    reveal_strlit("BUY");
    reveal_strlit("SELL");
    reveal_strlit("TRADE");
    reveal_strlit("CANCELED");
    reveal_strlit("EXPIRED");
    reveal_strlit("EXPIRED_IN_MATCH");
    reveal_strlit("REJECTED");
    assert("BUY"@.len() != "SELL"@.len());
    assert("TRADE"@.len() == 5);
    assert("CANCELED"@.len() == 8);
    assert("EXPIRED"@.len() == 7);
    assert("EXPIRED_IN_MATCH"@.len() == 16);
    assert("REJECTED"@.len() == 8);
    assert("CANCELED"@[0] != "REJECTED"@[0]);
}

/// A reported symbol that ends in `USDT` is quoted in it, and what precedes it is the base; any
/// other is all base.
pub proof fn reported_symbols_are_split(base: Seq<char>, name: Seq<char>, venue: Venue)
    ensures
        reported_symbol(base + "USDT"@, venue) == (SymbolView {
            base: types::uppercase(base),
            quote: "USDT"@,
            venue,
        }),
        !text::has_suffix(name, "USDT"@) ==> reported_symbol(name, venue).base
            == types::uppercase(name) && reported_symbol(name, venue).quote.len() == 0,
{
    reveal_strlit("USDT");
    reveal_strlit("");
    let s = base + "USDT"@;
    assert("USDT"@.len() == 4);
    assert(s.skip(s.len() - 4) =~= "USDT"@);
    assert(s.take(s.len() - 4) =~= base);
}

} // verus!
