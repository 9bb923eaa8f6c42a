use atomic_mesh::binance::{
    parse_binance_message, parse_depth, parse_direct, parse_trade, read_envelope, read_message,
    stream_names, stream_url, streams, BinanceMessage, Envelope,
};
use atomic_mesh::connector::RawFeedMessage;
use atomic_mesh::event::EventPayload;
use atomic_mesh::gateway::{
    build_query_string, canceled_count, count_listed, is_signable, keepalive_url,
    list_cancel_all_params, list_cancel_params, list_order_params, listen_key_url,
    next_backoff, on_cancel_reply, on_order_reply, order_reply, parse_execution_report,
    request_url, sign_hmac_sha256, signed_url, stream_step, user_stream_url, ExecutionReport,
    GatewayConfig, OrderAnswer, OrderOrigin, OrderReply, OrderRequest, OrderResponse,
    ResponseFill, StreamAction, StreamEvent, FIRST_BACKOFF_MS,
};
use atomic_mesh::json::{outline, Json};
use atomic_mesh::normalizer::FeedNormalizer;
use atomic_mesh::types::{
    Level, OrderId, OrderType, Price, Qty, Side, Symbol, TimeInForce, Venue,
};

fn price(value: f64, decimals: u8) -> Price {
    Price((value * 10f64.powi(decimals as i32)).round() as i64)
}

fn qty(value: f64, decimals: u8) -> Qty {
    Qty((value * 10f64.powi(decimals as i32)).round() as u64)
}

fn levels(raw: &[(f64, f64)]) -> Vec<Level> {
    raw.iter()
        .map(|(p, q)| Level { price: price(*p, 2), qty: qty(*q, 8) })
        .collect()
}

#[test]
fn normalize_trade_converts_float_to_integer() {
    let norm = FeedNormalizer::new(Venue::Binance, 2, 8);
    let msg = RawFeedMessage::Trade {
        symbol: "BTCUSDT".to_string(),
        price: price(50000.50, norm.price_decimals()),
        qty: qty(0.123, norm.qty_decimals()),
        is_buy: true,
        timestamp: 1000,
    };
    let payload = norm.normalize(msg).unwrap();
    match payload {
        EventPayload::Trade(t) => {
            assert_eq!(t.price, price(50000.50, 2));
            assert_eq!(t.price, Price(5_000_050));
            assert_eq!(t.qty, qty(0.123, 8));
            assert_eq!(t.qty, Qty(12_300_000));
            assert_eq!(t.side, Side::Buy);
            assert_eq!(t.symbol.base, "BTC");
            assert_eq!(t.symbol.quote, "USDT");
        }
        _ => panic!("expected Trade"),
    }
}

#[test]
fn normalize_snapshot_creates_book_update() {
    let norm = FeedNormalizer::new(Venue::Binance, 2, 8);
    let msg = RawFeedMessage::OrderBookSnapshot {
        symbol: "ETHUSDT".to_string(),
        bids: levels(&[(3000.0, 10.0), (2999.0, 5.0)]),
        asks: levels(&[(3001.0, 8.0)]),
        timestamp: 2000,
    };
    let payload = norm.normalize(msg).unwrap();
    match payload {
        EventPayload::OrderBookUpdate(obu) => {
            assert!(obu.is_snapshot);
            assert_eq!(obu.bids.len(), 2);
            assert_eq!(obu.asks.len(), 1);
            assert_eq!(obu.symbol.base, "ETH");
        }
        _ => panic!("expected OrderBookUpdate"),
    }
}

#[test]
fn normalize_delta_is_not_snapshot() {
    let norm = FeedNormalizer::new(Venue::Binance, 2, 8);
    let msg = RawFeedMessage::OrderBookDelta {
        symbol: "BTCUSDT".to_string(),
        bids: levels(&[(50000.0, 1.0)]),
        asks: levels(&[]),
        timestamp: 3000,
    };
    let payload = norm.normalize(msg).unwrap();
    match payload {
        EventPayload::OrderBookUpdate(obu) => {
            assert!(!obu.is_snapshot);
        }
        _ => panic!("expected OrderBookUpdate"),
    }
}

#[test]
fn parse_symbol_formats() {
    let norm = FeedNormalizer::new(Venue::Binance, 2, 8);
    let s1 = norm.parse_symbol("BTCUSDT");
    assert_eq!(s1.base, "BTC");
    assert_eq!(s1.quote, "USDT");

    let s2 = norm.parse_symbol("BTC/USDT");
    assert_eq!(s2.base, "BTC");
    assert_eq!(s2.quote, "USDT");

    let s3 = norm.parse_symbol("ETH-BTC");
    assert_eq!(s3.base, "ETH");
    assert_eq!(s3.quote, "BTC");

    let s4 = norm.parse_symbol("SOLUSD");
    assert_eq!(s4.base, "SOL");
    assert_eq!(s4.quote, "USD");
}

#[test]
fn sell_side_from_is_buy_false() {
    let norm = FeedNormalizer::new(Venue::Binance, 2, 8);
    let msg = RawFeedMessage::Trade {
        symbol: "BTCUSDT".to_string(),
        price: price(50000.0, 2),
        qty: qty(1.0, 8),
        is_buy: false,
        timestamp: 0,
    };
    match norm.normalize(msg).unwrap() {
        EventPayload::Trade(t) => assert_eq!(t.side, Side::Sell),
        _ => panic!("expected Trade"),
    }
}

#[test]
fn unknown_quotes_are_named_so() {
    let norm = FeedNormalizer::new(Venue::OKX, 2, 8);
    let s = norm.parse_symbol("sol-eur");
    assert_eq!(s.base, "SOLEUR");
    assert_eq!(s.quote, "UNKNOWN");
    assert_eq!(s.venue, Venue::OKX);
    assert_eq!(norm.parse_symbol("USDT").base, "");
}

#[test]
fn json_values_are_read() {
    let v = Json::parse("{\"a\": [1, -1, 1.5, \"x\", null, true], \"b\": {\"c\": \"d\"}}").unwrap();
    let items = v.get("a").unwrap().items().unwrap();
    assert_eq!(items.len(), 6);
    assert_eq!(items[0].as_u64(), Some(1));
    assert_eq!(items[1].as_u64(), None);
    assert_eq!(items[2].as_u64(), None);
    assert_eq!(items[3].as_str(), Some("x"));
    assert!(matches!(items[4], Json::Null));
    assert_eq!(items[5].as_bool(), Some(true));
    assert_eq!(v.get("a").unwrap().text_of_item(3), Some("x"));
    assert_eq!(v.get("a").unwrap().text_of_item(6), None);
    assert_eq!(v.get("b").unwrap().text_at("c"), Some("d"));
    assert!(v.get("z").is_none());
    assert_eq!(v.number_at("a"), None);
    assert_eq!(v.truth_at("a"), None);
    assert!(Json::parse("{").is_none());
    assert_eq!(
        Json::parse("{\"k\": 1, \"k\": 2}").unwrap().number_at("k"),
        Some(2)
    );
}

#[test]
fn stream_addresses_name_both_streams() {
    let names = stream_names(&vec!["BTCUSDT".to_string(), "EthUsdt".to_string()]);
    assert_eq!(
        names,
        vec![
            "btcusdt@depth20@100ms",
            "btcusdt@trade",
            "ethusdt@depth20@100ms",
            "ethusdt@trade"
        ]
    );
    assert_eq!(
        stream_url(&names),
        "wss://stream.binance.com:9443/ws/btcusdt@depth20@100ms/btcusdt@trade/\
         ethusdt@depth20@100ms/ethusdt@trade"
    );
    assert!(streams(&Vec::new()).is_empty());
}

fn depth_json() -> &'static str {
    "{\"e\":\"depthUpdate\",\"s\":\"BTCUSDT\",\"E\":5,\
     \"bids\":[[\"1.5\",\"2\"],[\"x\"],7,[\"3\",\"4\"]],\"asks\":7}"
}

fn trade_json() -> &'static str {
    "{\"e\":\"trade\",\"s\":\"BTCUSDT\",\"E\":6,\"p\":\"1\",\"q\":\"2\",\"m\":true}"
}

#[test]
fn depth_messages_keep_well_formed_levels() {
    let v = Json::parse(depth_json()).unwrap();
    match parse_depth(&v).unwrap() {
        BinanceMessage::Depth { symbol, bids, asks, timestamp } => {
            assert_eq!(symbol, "BTCUSDT");
            assert_eq!(timestamp, 5);
            assert_eq!(
                bids,
                vec![
                    ("1.5".to_string(), "2".to_string()),
                    ("3".to_string(), "4".to_string())
                ]
            );
            assert!(asks.is_empty());
        }
        _ => panic!("expected Depth"),
    }
}

#[test]
fn trades_are_buys_when_the_buyer_took() {
    let v = Json::parse(trade_json()).unwrap();
    match parse_trade(&v).unwrap() {
        BinanceMessage::Trade { price, qty, is_buy, timestamp, .. } => {
            assert_eq!(price, "1");
            assert_eq!(qty, "2");
            assert!(!is_buy);
            assert_eq!(timestamp, 6);
        }
        _ => panic!("expected Trade"),
    }
    let missing = Json::parse("{\"s\":\"BTCUSDT\",\"E\":6,\"p\":\"1\",\"m\":true}").unwrap();
    assert!(parse_trade(&missing).is_none());
}

#[test]
fn direct_messages_name_their_kind() {
    assert!(matches!(
        parse_direct(&Json::parse(depth_json()).unwrap()),
        Some(BinanceMessage::Depth { .. })
    ));
    assert!(matches!(
        parse_direct(&Json::parse(trade_json()).unwrap()),
        Some(BinanceMessage::Trade { .. })
    ));
    assert!(parse_direct(&Json::parse("{\"e\":\"kline\"}").unwrap()).is_none());
    assert!(parse_direct(&Json::parse("[1]").unwrap()).is_none());
}

#[test]
fn envelopes_decide_the_kind() {
    let named = |stream: &str| {
        format!("{{\"stream\":\"{}\",\"e\":\"trade\",\"data\":{}}}", stream, depth_json())
    };
    match parse_binance_message(&named("btcusdt@depth20@100ms")) {
        Some(BinanceMessage::Depth { symbol, bids, .. }) => {
            assert_eq!(symbol, "BTCUSDT");
            assert!(!bids.is_empty());
        }
        _ => panic!("expected Depth"),
    }
    assert!(parse_binance_message(&named("btcusdt@trade")).is_none());
    assert!(parse_binance_message(&named("btcusdt@kline")).is_none());
    let kline = trade_json().replacen('{', "{\"stream\":\"btcusdt@kline\",\"data\":1,", 1);
    assert!(matches!(parse_binance_message(&kline), Some(BinanceMessage::Trade { .. })));
    let unnamed = trade_json().replacen('{', "{\"data\":1,", 1);
    assert!(parse_binance_message(&unnamed).is_none());
    let open = trade_json().replacen('{', "{\"stream\":null,\"data\":1,", 1);
    assert!(parse_binance_message(&open).is_none());
    let number = trade_json().replacen('{', "{\"stream\":5,\"data\":1,", 1);
    assert!(matches!(parse_binance_message(&number), Some(BinanceMessage::Trade { .. })));
    assert!(matches!(
        parse_binance_message(trade_json()),
        Some(BinanceMessage::Trade { .. })
    ));
    assert!(parse_binance_message("not json").is_none());
    assert!(parse_binance_message("[]").is_none());
}

#[test]
fn envelopes_may_be_lists_of_name_and_data() {
    let list = format!(" [ \"btcusdt@trade\" , {} ]", trade_json());
    assert!(matches!(parse_binance_message(&list), Some(BinanceMessage::Trade { .. })));
    let long = format!("[\"btcusdt@trade\",{},1]", trade_json());
    assert!(parse_binance_message(&long).is_none());
    let short = "[\"btcusdt@trade\"]";
    assert!(parse_binance_message(short).is_none());
}

#[test]
fn repeated_envelope_fields_leave_the_message_to_speak() {
    let twice = |fields: &str| trade_json().replacen('{', &format!("{{{},", fields), 1);
    for fields in [
        "\"stream\":\"btcusdt@depth\",\"stream\":\"btcusdt@depth\",\"data\":{}",
        "\"stream\":\"btcusdt@depth\",\"data\":{},\"data\":{}",
        "\"stream\":null,\"\\u0073tream\":\"btcusdt@depth\",\"data\":{}",
    ] {
        match parse_binance_message(&twice(fields)) {
            Some(BinanceMessage::Trade { symbol, .. }) => assert_eq!(symbol, "BTCUSDT"),
            _ => panic!("expected Trade"),
        }
    }
    let once = twice("\"stream\":\"btcusdt@depth\",\"data\":{\"stream\":1,\"data\":2}");
    assert!(parse_binance_message(&once).is_none());
}

#[test]
fn other_envelope_fields_are_read_over() {
    let wide = format!(
        "{{\"x\":1e999,\"stream\":\"btcusdt@trade\",\"y\":\"\\ud800\",\"data\":{}}}",
        trade_json()
    );
    assert!(Json::parse(&wide).is_none());
    assert!(matches!(parse_binance_message(&wide), Some(BinanceMessage::Trade { .. })));
    let bad_name = format!("{{\"\\ud800\":1,\"stream\":\"a@trade\",\"data\":{}}}", trade_json());
    assert!(parse_binance_message(&bad_name).is_none());
    let cut = format!("{{\"stream\":\"btcusdt@trade\",\"data\":{}", trade_json());
    assert!(parse_binance_message(&cut).is_none());
    let more = format!("{{\"stream\":\"btcusdt@trade\",\"data\":{}}} x", trade_json());
    assert!(parse_binance_message(&more).is_none());
}

#[test]
fn deep_data_is_refused_as_in_the_whole() {
    let nested = |n: usize| {
        let deep = "[".repeat(n) + &"]".repeat(n);
        let data = trade_json().replacen('{', &format!("{{\"x\":{},", deep), 1);
        format!("{{\"stream\":\"btcusdt@trade\",\"data\":{}}}", data)
    };
    assert!(parse_binance_message(&nested(125)).is_some());
    assert!(parse_binance_message(&nested(126)).is_none());
}

#[test]
fn outlines_part_objects_and_lists() {
    let o = outline(" {\"a,b\" : [1,{\"c\":2}], \"d\\\"\":\"}\"} ");
    assert_eq!(o.lead, Some('{'));
    assert_eq!(o.parts, vec!["\"a,b\" ", " [1,{\"c\":2}]", " \"d\\\"\"", "\"}\""]);
    let o = outline("[1,[2,3],\"]\"]");
    assert_eq!(o.lead, Some('['));
    assert_eq!(o.parts, vec!["1", "[2,3]", "\"]\""]);
    assert_eq!(outline("{}").parts, vec![""]);
    assert!(outline(" 5").parts.is_empty());
    assert_eq!(outline(" \t\r\n").lead, None);
}

#[test]
fn envelopes_are_read_from_their_parts() {
    let text = |s: &str| Some(Json::Text(s.to_string()));
    let values = vec![text("stream"), text("a@trade"), text("data"), Some(Json::Bool(true))];
    match read_envelope(Some('{'), &values) {
        Envelope::Named { stream, data } => {
            assert_eq!(stream, "a@trade");
            assert_eq!(data.as_bool(), Some(true));
        }
        _ => panic!("expected a name"),
    }
    assert!(matches!(read_envelope(Some('"'), &values), Envelope::Absent));
    let unreadable = vec![text("stream"), None, text("data"), Some(Json::Bool(true))];
    assert!(matches!(read_envelope(Some('{'), &unreadable), Envelope::Absent));
    let unnamed = vec![text("data"), Some(Json::Bool(true)), text("x"), None];
    assert!(matches!(read_envelope(Some('{'), &unnamed), Envelope::Unnamed));
    let whole = Json::parse(trade_json());
    assert!(read_message(Envelope::Unnamed, &whole).is_none());
    assert!(matches!(
        read_message(Envelope::Absent, &whole),
        Some(BinanceMessage::Trade { .. })
    ));
}

fn request(order_type: OrderType) -> OrderRequest {
    OrderRequest {
        order_id: OrderId("binance-1".to_string()),
        symbol: Symbol::new("BTC", "USDT", Venue::Binance),
        side: Side::Sell,
        order_type,
        price: "50000.50".to_string(),
        qty: "0.10000000".to_string(),
        time_in_force: TimeInForce::ImmediateOrCancel,
    }
}

#[test]
fn limit_orders_have_a_price() {
    let params = list_order_params(&request(OrderType::Limit), 5000, 99);
    assert_eq!(
        build_query_string(&params),
        "symbol=BTCUSDT&side=SELL&type=LIMIT&quantity=0.10000000&newClientOrderId=binance-1\
         &recvWindow=5000&price=50000.50&timeInForce=IOC&timestamp=99"
    );
    let params = list_order_params(&request(OrderType::Market), 5000, 99);
    assert_eq!(
        build_query_string(&params),
        "symbol=BTCUSDT&side=SELL&type=MARKET&quantity=0.10000000&newClientOrderId=binance-1\
         &recvWindow=5000&timestamp=99"
    );
}

#[test]
fn cancellations_name_the_order() {
    let symbol = Symbol::new("BTC", "USDT", Venue::Binance);
    let params = list_cancel_params(&OrderId("a".to_string()), &symbol, 5000, 7);
    assert_eq!(
        build_query_string(&params),
        "symbol=BTCUSDT&origClientOrderId=a&recvWindow=5000&timestamp=7"
    );
    let params = list_cancel_all_params("ETHUSDT", 5000, 7);
    assert_eq!(
        build_query_string(&params),
        "symbol=ETHUSDT&recvWindow=5000&timestamp=7"
    );
    assert_eq!(build_query_string(&Vec::new()), "");
}

#[test]
fn signatures_are_hmac_sha256() {
    assert!(is_signable("Jefe", "what do ya want for nothing?"));
    assert_eq!(
        sign_hmac_sha256("Jefe", "what do ya want for nothing?"),
        "5bdcc146bf60754e6a042426089575c75a003f089d2739839dec58b964ec3843"
    );
    let config = GatewayConfig::binance_testnet("key".to_string(), "Jefe".to_string());
    let params = vec![("a", "b".to_string())];
    assert_eq!(
        request_url(&config, "/api/v3/order", &params),
        signed_url(
            "https://testnet.binance.vision",
            "/api/v3/order",
            "a=b",
            &sign_hmac_sha256("Jefe", "a=b")
        )
    );
    assert_eq!(signed_url("u", "/e", "q", "s"), "u/e?q&signature=s");
}

#[test]
fn configurations_differ_by_address() {
    let spot = GatewayConfig::binance_spot("k".to_string(), "s".to_string());
    assert_eq!(spot.base_url, "https://api.binance.com");
    assert_eq!(spot.recv_window, 5000);
    assert_eq!(spot.price_decimals, 2);
    assert_eq!(spot.qty_decimals, 8);
    assert_eq!(
        user_stream_url(&spot.base_url, "k"),
        "wss://stream.binance.com:9443/ws/k"
    );
    assert_eq!(
        user_stream_url("https://testnet.binance.vision", "k"),
        "wss://stream.testnet.binance.vision/ws/k"
    );
    assert_eq!(listen_key_url("u"), "u/api/v3/userDataStream");
    assert_eq!(keepalive_url("u", "k"), "u/api/v3/userDataStream?listenKey=k");
}

#[test]
fn backoff_doubles_up_to_a_limit() {
    let mut wait = FIRST_BACKOFF_MS;
    let mut waits = Vec::new();
    for _ in 0..6 {
        waits.push(wait);
        wait = next_backoff(wait);
    }
    assert_eq!(waits, vec![1000, 2000, 4000, 8000, 16000, 30000]);
    assert_eq!(next_backoff(30000), 30000);
}

#[test]
fn streams_reconnect_after_longer_waits() {
    let again = |after_ms: u64| StreamAction::Reconnect { after_ms };
    assert_eq!(stream_step(4000, StreamEvent::Connected), (1000, StreamAction::Listen));
    assert_eq!(stream_step(1000, StreamEvent::ConnectFailed), (2000, again(1000)));
    assert_eq!(stream_step(16000, StreamEvent::Broken), (30000, again(16000)));
    assert_eq!(stream_step(30000, StreamEvent::Broken), (30000, again(30000)));
    assert_eq!(stream_step(2000, StreamEvent::ReceiverGone), (2000, StreamAction::Stop));
}

fn received(
    success: bool,
    order: Option<OrderResponse>,
    refusal: Option<(i32, String)>,
) -> OrderAnswer {
    OrderAnswer::Received {
        success,
        status: "418".to_string(),
        body: "tea".to_string(),
        order,
        refusal,
    }
}

#[test]
fn answers_become_replies() {
    let order = || Some(OrderResponse { order_id: 7, settled: false, fills: Vec::new() });
    let refusal = || Some((-1013, "bad".to_string()));
    match order_reply(received(true, order(), refusal())) {
        OrderReply::Accepted(response) => assert_eq!(response.order_id, 7),
        _ => panic!("expected an accepted order"),
    }
    assert!(matches!(
        order_reply(received(true, None, refusal())),
        OrderReply::Unreadable
    ));
    match order_reply(received(false, order(), refusal())) {
        OrderReply::Refused { code, msg } => assert_eq!((code, msg.as_str()), (-1013, "bad")),
        _ => panic!("expected a refusal"),
    }
    match order_reply(received(false, order(), None)) {
        OrderReply::HttpError { status, body } => {
            assert_eq!((status.as_str(), body.as_str()), ("418", "tea"));
        }
        _ => panic!("expected an error"),
    }
    match order_reply(OrderAnswer::Lost("gone".to_string())) {
        OrderReply::NetworkError(why) => assert_eq!(why, "gone"),
        _ => panic!("expected an error"),
    }
    for answer in [received(false, None, refusal()), received(false, order(), None)] {
        let events = on_order_reply(&origin(), &order_reply(answer));
        assert_eq!(events.len(), 1);
        assert!(matches!(events[0].payload, EventPayload::OrderReject(_)));
    }
}

fn origin() -> OrderOrigin {
    OrderOrigin {
        order_id: OrderId("a".to_string()),
        symbol: Symbol::new("BTC", "USDT", Venue::Binance),
        side: Side::Buy,
        venue: Venue::Binance,
        source: [1u8; 32],
        seq_base: 10,
        timestamp: 20,
    }
}

fn part(qty: u64) -> ResponseFill {
    ResponseFill {
        price: Price(5),
        qty: Qty(qty),
        remaining: Qty(0),
        fee: 1,
        is_maker: true,
    }
}

#[test]
fn accepted_orders_are_acknowledged_and_filled() {
    let reply = OrderReply::Accepted(OrderResponse {
        order_id: 77,
        settled: true,
        fills: vec![part(1), part(2)],
    });
    let events = on_order_reply(&origin(), &reply);
    assert_eq!(events.len(), 3);
    assert_eq!(events[0].seq, 10);
    assert_eq!(events[2].seq, 12);
    match &events[0].payload {
        EventPayload::OrderAck(ack) => assert_eq!(ack.exchange_order_id, "77"),
        _ => panic!("expected an acknowledgement"),
    }
    assert!(matches!(events[1].payload, EventPayload::OrderPartialFill(_)));
    assert!(matches!(events[2].payload, EventPayload::OrderFill(_)));

    let open = OrderReply::Accepted(OrderResponse {
        order_id: 77,
        settled: false,
        fills: vec![part(1)],
    });
    let events = on_order_reply(&origin(), &open);
    assert!(matches!(events[1].payload, EventPayload::OrderPartialFill(_)));
}

fn reason(reply: OrderReply) -> String {
    let mut events = on_order_reply(&origin(), &reply);
    assert_eq!(events.len(), 1);
    match events.remove(0).payload {
        EventPayload::OrderReject(r) => r.reason,
        _ => panic!("expected a rejection"),
    }
}

#[test]
fn refused_orders_are_rejected_with_a_reason() {
    assert_eq!(
        reason(OrderReply::Refused { code: -1013, msg: "Filter failure".to_string() }),
        "Binance -1013: Filter failure"
    );
    assert_eq!(
        reason(OrderReply::HttpError {
            status: "500 Internal Server Error".to_string(),
            body: "oops".to_string(),
        }),
        "HTTP 500 Internal Server Error: oops"
    );
    assert_eq!(
        reason(OrderReply::NetworkError("timeout".to_string())),
        "network error: timeout"
    );
    assert!(on_order_reply(&origin(), &OrderReply::Unreadable).is_empty());
}

#[test]
fn cancellations_lead_to_events() {
    let id = OrderId("a".to_string());
    let event = on_cancel_reply(true, &id, Venue::Binance, [0u8; 32], 3, 4).unwrap();
    match event.payload {
        EventPayload::OrderCancel(c) => assert_eq!(c.reason, "requested"),
        _ => panic!("expected a cancellation"),
    }
    assert!(on_cancel_reply(false, &id, Venue::Binance, [0u8; 32], 3, 4).is_none());
}

#[test]
fn canceled_orders_are_counted() {
    assert_eq!(canceled_count(true, "[{}, {}, 3]"), 3);
    assert_eq!(canceled_count(false, "[{}, {}]"), 0);
    assert_eq!(canceled_count(true, "{}"), 0);
    assert_eq!(canceled_count(true, "nonsense"), 0);
    assert_eq!(count_listed(&Json::List(vec![Json::Null])), 1);
}

fn report(happened: &str, rest: &str) -> String {
    format!(
        "{{\"e\":\"executionReport\",\"c\":\"id\",\"X\":\"FILLED\",\"x\":\"{}\",\"S\":\"SELL\",\
         \"s\":\"BTCUSDT\",\"E\":7{}}}",
        happened, rest
    )
}

#[test]
fn reported_fills_become_events() {
    let mut seq: u64 = 100;
    let text = report("TRADE", ",\"L\":\"1.5\",\"l\":\"2\",\"n\":\"0.1\",\"m\":true");
    match parse_execution_report(&text, Venue::Binance, [0u8; 32], &mut seq).unwrap() {
        ExecutionReport::Fill(fill) => {
            assert_eq!(fill.seq, 101);
            assert_eq!(fill.timestamp, 7_000_000);
            assert_eq!(fill.symbol, Symbol::new("BTC", "USDT", Venue::Binance));
            assert_eq!(fill.price, "1.5");
            assert_eq!(fill.commission, Some("0.1".to_string()));
            assert_eq!(fill.ordered, None);
            assert!(fill.complete);
            let event = fill.into_event(part(2), Venue::Binance, [3u8; 32]);
            assert_eq!(event.seq, 101);
            assert!(matches!(event.payload, EventPayload::OrderFill(_)));
        }
        _ => panic!("expected a fill"),
    }
    assert_eq!(seq, 101);
}

#[test]
fn unreadable_fills_take_a_number_all_the_same() {
    let mut seq: u64 = 5;
    let text = report("TRADE", "");
    assert!(parse_execution_report(&text, Venue::Binance, [0u8; 32], &mut seq).is_none());
    assert_eq!(seq, 6);
    let text = report("NEW", "");
    assert!(parse_execution_report(&text, Venue::Binance, [0u8; 32], &mut seq).is_none());
    assert_eq!(seq, 7);
    assert!(parse_execution_report("{}", Venue::Binance, [0u8; 32], &mut seq).is_none());
    assert!(parse_execution_report("x", Venue::Binance, [0u8; 32], &mut seq).is_none());
    assert_eq!(seq, 7);
}

fn closed(text: &str) -> EventPayload {
    let mut seq: u64 = 0;
    match parse_execution_report(text, Venue::Binance, [0u8; 32], &mut seq).unwrap() {
        ExecutionReport::Closed(event) => event.payload,
        _ => panic!("expected a closed order"),
    }
}

#[test]
fn reported_ends_become_events() {
    for word in ["CANCELED", "EXPIRED", "EXPIRED_IN_MATCH"] {
        match closed(&report(word, "")) {
            EventPayload::OrderCancel(c) => assert_eq!(c.reason, word),
            _ => panic!("expected a cancellation"),
        }
    }
    match closed(&report("REJECTED", ",\"r\":\"NO_MONEY\"")) {
        EventPayload::OrderReject(r) => assert_eq!(r.reason, "NO_MONEY"),
        _ => panic!("expected a rejection"),
    }
    match closed(&report("REJECTED", "")) {
        EventPayload::OrderReject(r) => assert_eq!(r.reason, "unknown"),
        _ => panic!("expected a rejection"),
    }
}

#[test]
fn times_beyond_nanoseconds_are_passed_over() {
    let mut seq: u64 = 1;
    let text = "{\"e\":\"executionReport\",\"c\":\"id\",\"X\":\"N\",\"x\":\"CANCELED\",\
                \"S\":\"BUY\",\"s\":\"X\",\"E\":18446744073709551615}";
    assert!(parse_execution_report(text, Venue::Binance, [0u8; 32], &mut seq).is_none());
    assert_eq!(seq, 1);
}
