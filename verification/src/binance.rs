//! Messages of the Binance market data streams.
use vstd::prelude::*;
use vstd::string::*;
use vstd::utf8::*;

use crate::json;
use crate::json::{Json, JsonView};
use crate::text;

verus! {

/// Where the market data streams are.
pub const BINANCE_WS_URL: &'static str = "wss://stream.binance.com:9443/ws";

/// A text in lower case, by the Unicode rules of `str::to_lowercase`.
pub uninterp spec fn lowercase(s: Seq<char>) -> Seq<char>;

/// A text with its ASCII upper-case letters as lower-case letters.
pub open spec fn ascii_lower(s: Seq<char>) -> Seq<char> {
    Seq::new(
        s.len(),
        |i: int|
            if 'A' <= s[i] <= 'Z' {
                (s[i] as nat + 32) as char
            } else {
                s[i]
            },
    )
}

/// Calls `str::to_lowercase`, whose result depends on the text alone. Of the Unicode mapping
/// only this much is claimed: in a text of ASCII characters each upper-case letter becomes its
/// lower-case letter, and the rest stays as it is.
#[verifier::external_body]
fn to_lower(s: &str) -> (r: String)
    ensures
        r@ == lowercase(s@),
        is_ascii_chars(s@) ==> r@ == ascii_lower(s@),
{
    s.to_lowercase()
}

/// The names of the streams of lower-case symbols: for each its order book and its trades.
pub open spec fn streams_of(lower: Seq<Seq<char>>) -> Seq<Seq<char>>
    decreases lower.len(),
{
    if lower.len() == 0 {
        Seq::empty()
    } else {
        streams_of(lower.drop_last()).push(lower.last() + "@depth20@100ms"@).push(
            lower.last() + "@trade"@,
        )
    }
}

/// The symbols in lower case.
fn lower_all(symbols: &Vec<String>) -> (r: Vec<String>)
    ensures
        r.deep_view() == symbols.deep_view().map_values(|s: Seq<char>| lowercase(s)),
{
    let mut out: Vec<String> = Vec::new();
    let mut i: usize = 0;
    while i < symbols.len()
        invariant
            i <= symbols@.len(),
            out@.len() == i,
            forall|k: int| 0 <= k < i ==> (#[trigger] out@[k])@ == lowercase(symbols@[k]@),
        decreases symbols.len() - i,
    {
        out.push(to_lower(symbols[i].as_str()));
        i += 1;
    }
    assert(out.deep_view() =~= symbols.deep_view().map_values(|s: Seq<char>| lowercase(s)));
    out
}

/// The names of the streams of lower-case symbols.
pub fn streams(lower: &Vec<String>) -> (r: Vec<String>)
    ensures
        r.deep_view() == streams_of(lower.deep_view()),
{
    let ghost views = lower.deep_view();
    let mut out: Vec<String> = Vec::new();
    let mut i: usize = 0;
    assert(views.take(0) =~= Seq::empty());
    assert(out.deep_view() =~= Seq::empty());
    while i < lower.len()
        invariant
            i <= lower@.len(),
            views == lower.deep_view(),
            out.deep_view() == streams_of(views.take(i as int)),
        decreases lower.len() - i,
    {
        let ghost before = out.deep_view();
        proof {
            assert(views[i as int] == lower@[i as int]@);
            assert(views.take(i + 1).drop_last() =~= views.take(i as int));
            assert(views.take(i + 1).last() == views[i as int]);
        }
        let mut depth = lower[i].as_str().to_owned();
        depth.append("@depth20@100ms");
        let mut trade = lower[i].as_str().to_owned();
        trade.append("@trade");
        out.push(depth);
        assert(out.deep_view() =~= before.push(views[i as int] + "@depth20@100ms"@));
        out.push(trade);
        assert(out.deep_view() =~= before.push(views[i as int] + "@depth20@100ms"@).push(
            views[i as int] + "@trade"@,
        ));
        i += 1;
    }
    assert(views.take(i as int) =~= views);
    out
}

/// The names of the streams of symbols.
pub fn stream_names(symbols: &Vec<String>) -> (r: Vec<String>)
    ensures
        r.deep_view() == streams_of(
            symbols.deep_view().map_values(|s: Seq<char>| lowercase(s)),
        ),
{
    let lower = lower_all(symbols);
    streams(&lower)
}

/// The address of a connection to streams.
pub fn stream_url(names: &Vec<String>) -> (r: String)
    ensures
        r@ == BINANCE_WS_URL@ + "/"@ + text::joined(names.deep_view(), "/"@),
{
    let mut url = BINANCE_WS_URL.to_owned();
    url.append("/");
    url.append(text::join(names, "/").as_str());
    url
}

/// A market data message with its decimals still as text.
#[allow(inconsistent_fields)]
#[derive(Debug)]
pub enum BinanceMessage {
    /// Changes of an order book: prices and quantities.
    Depth {
        symbol: String,
        bids: Vec<(String, String)>,
        asks: Vec<(String, String)>,
        timestamp: u64,
    },
    /// A trade; a buy where the buyer took liquidity.
    Trade { symbol: String, price: String, qty: String, is_buy: bool, timestamp: u64 },
}

/// The contents of a [`BinanceMessage`].
#[allow(inconsistent_fields)]
#[verifier::ext_equal]
pub enum BinanceMessageView {
    Depth {
        symbol: Seq<char>,
        bids: Seq<(Seq<char>, Seq<char>)>,
        asks: Seq<(Seq<char>, Seq<char>)>,
        timestamp: u64,
    },
    Trade {
        symbol: Seq<char>,
        price: Seq<char>,
        qty: Seq<char>,
        is_buy: bool,
        timestamp: u64,
    },
}

impl View for BinanceMessage {
    type V = BinanceMessageView;

    open spec fn view(&self) -> BinanceMessageView {
        match self {
            BinanceMessage::Depth { symbol, bids, asks, timestamp } => BinanceMessageView::Depth {
                symbol: symbol@,
                bids: bids.deep_view(),
                asks: asks.deep_view(),
                timestamp: *timestamp,
            },
            BinanceMessage::Trade { symbol, price, qty, is_buy, timestamp } => {
                BinanceMessageView::Trade {
                    symbol: symbol@,
                    price: price@,
                    qty: qty@,
                    is_buy: *is_buy,
                    timestamp: *timestamp,
                }
            },
        }
    }
}

/// The price and the quantity of a level, where both are texts.
pub open spec fn level_of(level: JsonView) -> Option<(Seq<char>, Seq<char>)> {
    match (level.text_of_item(0), level.text_of_item(1)) {
        (Some(price), Some(qty)) => Some((price, qty)),
        _ => None,
    }
}

/// The levels of a list; what is no level is left out.
pub open spec fn levels_of(items: Seq<JsonView>) -> Seq<(Seq<char>, Seq<char>)>
    decreases items.len(),
{
    if items.len() == 0 {
        Seq::empty()
    } else {
        match level_of(items.last()) {
            Some(level) => levels_of(items.drop_last()).push(level),
            None => levels_of(items.drop_last()),
        }
    }
}

/// The levels in a field; none where it holds no list.
pub open spec fn levels_at(data: JsonView, key: Seq<char>) -> Seq<(Seq<char>, Seq<char>)> {
    match data.field(key) {
        Some(v) => match v.items() {
            Some(items) => levels_of(items),
            None => Seq::empty(),
        },
        None => Seq::empty(),
    }
}

/// The order book message of a value, where it has a symbol and a time.
pub open spec fn depth_of(data: JsonView) -> Option<BinanceMessageView> {
    match (data.text_at("s"@), data.number_at("E"@)) {
        (Some(symbol), Some(timestamp)) => Some(
            BinanceMessageView::Depth {
                symbol,
                bids: levels_at(data, "bids"@),
                asks: levels_at(data, "asks"@),
                timestamp,
            },
        ),
        _ => None,
    }
}

/// The trade message of a value, where it has all the fields.
pub open spec fn trade_of(data: JsonView) -> Option<BinanceMessageView> {
    match (
        data.text_at("s"@),
        data.number_at("E"@),
        data.text_at("p"@),
        data.text_at("q"@),
        data.truth_at("m"@),
    ) {
        (Some(symbol), Some(timestamp), Some(price), Some(qty), Some(is_buyer_maker)) => Some(
            BinanceMessageView::Trade { symbol, price, qty, is_buy: !is_buyer_maker, timestamp },
        ),
        _ => None,
    }
}

/// The message of a value that says of itself what it is.
pub open spec fn direct_of(data: JsonView) -> Option<BinanceMessageView> {
    match data.text_at("e"@) {
        Some(kind) => if kind == "depthUpdate"@ {
            depth_of(data)
        } else if kind == "trade"@ {
            trade_of(data)
        } else {
            None
        },
        None => None,
    }
}

/// The levels in a field; none where it holds no list.
fn parse_levels(data: &Json, key: &str) -> (r: Vec<(String, String)>)
    ensures
        r.deep_view() == levels_at(data.model(), key@),
{
    let mut out: Vec<(String, String)> = Vec::new();
    assert(out.deep_view() =~= Seq::empty());
    let field = data.get(key);
    if field.is_none() {
        return out;
    }
    let list = field.unwrap();
    let items = list.items();
    if items.is_none() {
        return out;
    }
    let items: &Vec<Json> = items.unwrap();
    let ghost views = list.model().items()->Some_0;
    let mut i: usize = 0;
    assert(views.take(0) =~= Seq::empty());
    while i < items.len()
        invariant
            i <= items@.len(),
            items@.len() == views.len(),
            forall|k: int| 0 <= k < views.len() ==> #[trigger] views[k] == items@[k].model(),
            out.deep_view() == levels_of(views.take(i as int)),
        decreases items.len() - i,
    {
        let ghost before = out.deep_view();
        proof {
            assert(views.take(i + 1).drop_last() =~= views.take(i as int));
            assert(views.take(i + 1).last() == views[i as int]);
        }
        if let Some(price) = items[i].text_of_item(0) {
            if let Some(qty) = items[i].text_of_item(1) {
                out.push((price.to_owned(), qty.to_owned()));
                assert(out.deep_view() =~= before.push((price@, qty@)));
            }
        }
        i += 1;
    }
    assert(views.take(i as int) =~= views);
    out
}

/// The order book message of a value, where it has a symbol and a time.
pub fn parse_depth(data: &Json) -> (r: Option<BinanceMessage>)
    ensures
        match (r, depth_of(data.model())) {
            (Some(m), Some(v)) => m@ == v,
            (None, None) => true,
            _ => false,
        },
{
    if let Some(symbol) = data.text_at("s") {
        if let Some(timestamp) = data.number_at("E") {
            let bids = parse_levels(data, "bids");
            let asks = parse_levels(data, "asks");
            return Some(
                BinanceMessage::Depth { symbol: symbol.to_owned(), bids, asks, timestamp },
            );
        }
    }
    None
}

/// The trade message of a value, where it has all the fields.
pub fn parse_trade(data: &Json) -> (r: Option<BinanceMessage>)
    ensures
        match (r, trade_of(data.model())) {
            (Some(m), Some(v)) => m@ == v,
            (None, None) => true,
            _ => false,
        },
{
    let symbol = data.text_at("s");
    let timestamp = data.number_at("E");
    let price = data.text_at("p");
    let qty = data.text_at("q");
    let is_buyer_maker = data.truth_at("m");
    match (symbol, timestamp, price, qty, is_buyer_maker) {
        (Some(symbol), Some(timestamp), Some(price), Some(qty), Some(is_buyer_maker)) => Some(
            BinanceMessage::Trade {
                symbol: symbol.to_owned(),
                price: price.to_owned(),
                qty: qty.to_owned(),
                is_buy: !is_buyer_maker,
                timestamp,
            },
        ),
        _ => None,
    }
}

/// The message of a value that says of itself what it is.
pub fn parse_direct(data: &Json) -> (r: Option<BinanceMessage>)
    ensures
        match (r, direct_of(data.model())) {
            (Some(m), Some(v)) => m@ == v,
            (None, None) => true,
            _ => false,
        },
{
    match data.text_at("e") {
        Some(kind) => if text::is_same(kind, "depthUpdate") {
            parse_depth(data)
        } else if text::is_same(kind, "trade") {
            parse_trade(data)
        } else {
            None
        },
        None => None,
    }
}

/// What a text says of itself as a message of a combined stream.
#[derive(Debug)]
pub enum Envelope<'a> {
    /// It is no message of a combined stream.
    Absent,
    /// It is one without a stream name.
    Unnamed,
    /// It is one with a stream name and data.
    Named { stream: &'a str, data: &'a Json },
}

/// The contents of an [`Envelope`].
#[verifier::ext_equal]
pub enum EnvelopeView {
    Absent,
    Unnamed,
    Named { stream: Seq<char>, data: JsonView },
}

impl<'a> View for Envelope<'a> {
    type V = EnvelopeView;

    open spec fn view(&self) -> EnvelopeView {
        match self {
            Envelope::Absent => EnvelopeView::Absent,
            Envelope::Unnamed => EnvelopeView::Unnamed,
            Envelope::Named { stream, data } => EnvelopeView::Named {
                stream: stream@,
                data: data.model(),
            },
        }
    }
}

/// The contents of a value, where there is one.
pub open spec fn model_of(v: Option<Json>) -> Option<JsonView> {
    match v {
        Some(json) => Some(json.model()),
        None => None,
    }
}

/// The contents of values, where there are any.
pub open spec fn models(values: Seq<Option<Json>>) -> Seq<Option<JsonView>> {
    values.map_values(|v: Option<Json>| model_of(v))
}

/// The envelope of a stream name, which may be left out, and data. Either may be unreadable.
pub open spec fn envelope_with(
    stream: Option<Option<JsonView>>,
    data: Option<JsonView>,
) -> EnvelopeView {
    match (stream, data) {
        (None, Some(_)) | (Some(Some(JsonView::Null)), Some(_)) => EnvelopeView::Unnamed,
        (Some(Some(JsonView::Text(stream))), Some(data)) => EnvelopeView::Named { stream, data },
        _ => EnvelopeView::Absent,
    }
}

/// Which of the first `n` fields have a name. Names and values of fields alternate.
pub open spec fn places(values: Seq<Option<JsonView>>, name: Seq<char>, n: int) -> Seq<int>
    decreases n,
{
    if n <= 0 {
        Seq::empty()
    } else if values[2 * (n - 1)] == Some(JsonView::Text(name)) {
        places(values, name, n - 1).push(n - 1)
    } else {
        places(values, name, n - 1)
    }
}

/// The envelope of an object: it has data and perhaps a stream name, each once, and other fields
/// whose names are readable.
pub open spec fn object_envelope(values: Seq<Option<JsonView>>) -> EnvelopeView {
    let n = values.len() / 2;
    let streams = places(values, "stream"@, n as int);
    let datas = places(values, "data"@, n as int);
    if exists|i: int| 0 <= i < n && !(#[trigger] is_name(values, i)) {
        EnvelopeView::Absent
    } else if datas.len() != 1 || streams.len() > 1 {
        EnvelopeView::Absent
    } else {
        envelope_with(
            if streams.len() == 0 {
                None
            } else {
                Some(values[2 * streams[0] + 1])
            },
            values[2 * datas[0] + 1],
        )
    }
}

/// Whether the name of a field is readable.
pub open spec fn is_name(values: Seq<Option<JsonView>>, i: int) -> bool {
    values[2 * i] matches Some(JsonView::Text(_))
}

/// The envelope of an object, or of a list of a stream name and data, by its first character and
/// the values of its parts.
pub open spec fn envelope_of(lead: Option<char>, values: Seq<Option<JsonView>>) -> EnvelopeView {
    if lead == Some('{') {
        object_envelope(values)
    } else if lead == Some('[') && values.len() == 2 {
        envelope_with(Some(values[0]), values[1])
    } else {
        EnvelopeView::Absent
    }
}

/// The envelope of a stream name, which may be left out, and data.
fn combine<'a>(stream: Option<&'a Option<Json>>, data: &'a Option<Json>) -> (r: Envelope<'a>)
    ensures
        r@ == envelope_with(
            match stream {
                Some(v) => Some(model_of(*v)),
                None => None,
            },
            model_of(*data),
        ),
{
    match (stream, data) {
        (None, Some(_)) | (Some(Some(Json::Null)), Some(_)) => Envelope::Unnamed,
        (Some(Some(Json::Text(stream))), Some(data)) => Envelope::Named {
            stream: stream.as_str(),
            data,
        },
        _ => Envelope::Absent,
    }
}

/// More fields have no fewer places.
proof fn lemma_places(values: Seq<Option<JsonView>>, name: Seq<char>, m: int, n: int)
    requires
        m <= n,
    ensures
        places(values, name, m).len() <= places(values, name, n).len(),
    decreases n,
{
    if m < n && n > 0 {
        lemma_places(values, name, m, n - 1);
    }
}

/// The envelope of an object, by the names and values of its fields.
fn read_object<'a>(values: &'a Vec<Option<Json>>) -> (r: Envelope<'a>)
    ensures
        r@ == object_envelope(models(values@)),
{
    let ghost views = models(values@);
    let size: usize = values.len();
    let n: usize = size / 2;
    let mut stream: Option<usize> = None;
    let mut data: Option<usize> = None;
    let mut i: usize = 0;
    while i < n
        invariant
            views == models(values@),
            size == values@.len(),
            n == size / 2,
            i <= n,
            forall|k: int| 0 <= k < i ==> #[trigger] is_name(views, k),
            stream matches Some(k) ==> k < i,
            data matches Some(k) ==> k < i,
            places(views, "stream"@, i as int) == (match stream {
                Some(k) => seq![k as int],
                None => Seq::empty(),
            }),
            places(views, "data"@, i as int) == (match data {
                Some(k) => seq![k as int],
                None => Seq::empty(),
            }),
        decreases n - i,
    {
        assert(views[2 * i] == model_of(values@[2 * i]));
        match &values[2 * i] {
            Some(Json::Text(name)) => {
                assert(is_name(views, i as int));
                let is_stream = text::is_same(name.as_str(), "stream");
                let is_data = text::is_same(name.as_str(), "data");
                if (is_stream && stream.is_some()) || (is_data && data.is_some()) {
                    proof {
                        lemma_places(views, "stream"@, i + 1, n as int);
                        lemma_places(views, "data"@, i + 1, n as int);
                    }
                    return Envelope::Absent;
                }
                if is_stream {
                    stream = Some(i);
                    assert(places(views, "stream"@, i + 1) =~= seq![i as int]);
                }
                if is_data {
                    data = Some(i);
                    assert(places(views, "data"@, i + 1) =~= seq![i as int]);
                }
            },
            _ => {
                assert(!is_name(views, i as int));
                return Envelope::Absent;
            },
        }
        i += 1;
    }
    match data {
        Some(d) => {
            assert(views[2 * d + 1] == model_of(values@[2 * d + 1]));
            match stream {
                Some(s) => {
                    assert(views[2 * s + 1] == model_of(values@[2 * s + 1]));
                    combine(Some(&values[2 * s + 1]), &values[2 * d + 1])
                },
                None => combine(None, &values[2 * d + 1]),
            }
        },
        None => Envelope::Absent,
    }
}

/// The envelope of a text, by its first character and the values of its parts.
pub fn read_envelope<'a>(lead: Option<char>, values: &'a Vec<Option<Json>>) -> (r: Envelope<'a>)
    ensures
        r@ == envelope_of(lead, models(values@)),
{
    match lead {
        Some('{') => read_object(values),
        Some('[') => if values.len() == 2 {
            assert(models(values@)[0] == model_of(values@[0]));
            assert(models(values@)[1] == model_of(values@[1]));
            combine(Some(&values[0]), &values[1])
        } else {
            Envelope::Absent
        },
        _ => Envelope::Absent,
    }
}

/// The message of a value that says of itself what it is, where there is a value.
pub open spec fn spoken(whole: Option<JsonView>) -> Option<BinanceMessageView> {
    match whole {
        Some(v) => direct_of(v),
        None => None,
    }
}

/// The message in an envelope, and in the whole of the text. In a combined stream its kind is in
/// the stream's name; a name of neither kind, or no envelope, leaves the whole to speak for
/// itself.
pub open spec fn message_of(envelope: EnvelopeView, whole: Option<JsonView>) -> Option<
    BinanceMessageView,
> {
    match envelope {
        EnvelopeView::Absent => spoken(whole),
        EnvelopeView::Unnamed => None,
        EnvelopeView::Named { stream, data } => if text::holds(stream, "@depth"@) {
            depth_of(data)
        } else if text::holds(stream, "@trade"@) {
            trade_of(data)
        } else {
            spoken(whole)
        },
    }
}

/// The message in an envelope, and in the whole of the text.
pub fn read_message<'a>(envelope: Envelope<'a>, whole: &Option<Json>) -> (r: Option<
    BinanceMessage,
>)
    ensures
        match (r, message_of(envelope@, model_of(*whole))) {
            (Some(m), Some(v)) => m@ == v,
            (None, None) => true,
            _ => false,
        },
{
    match envelope {
        Envelope::Unnamed => {
            return None;
        },
        Envelope::Named { stream, data } => {
            if text::contains(stream, "@depth") {
                return parse_depth(data);
            }
            if text::contains(stream, "@trade") {
                return parse_trade(data);
            }
        },
        Envelope::Absent => {},
    }
    match whole {
        Some(v) => parse_direct(v),
        None => None,
    }
}

/// The value of a part of a JSON text, where it is readable inside brackets.
pub open spec fn value_in(part: Seq<char>) -> Option<JsonView> {
    match json::json_text("["@ + part + "]"@) {
        Some(JsonView::List(items)) => if items.len() == 1 {
            Some(items[0])
        } else {
            None
        },
        _ => None,
    }
}

/// Reads a part of a JSON text.
fn read_part(part: &str) -> (r: Option<Json>)
    ensures
        model_of(r) == value_in(part@),
{
    let mut list = "[".to_owned();
    list.append(part);
    list.append("]");
    match Json::parse(list.as_str()) {
        Some(Json::List(items)) => if items.len() == 1 {
            let mut items = items;
            let ghost views = Json::List(items).model()->List_0;
            assert(views[0] == items@[0].model());
            items.pop()
        } else {
            None
        },
        _ => None,
    }
}

/// Reads the parts of a JSON text.
fn read_parts(parts: &Vec<String>) -> (r: Vec<Option<Json>>)
    ensures
        models(r@) == parts.deep_view().map_values(|p: Seq<char>| value_in(p)),
{
    let ghost views = parts.deep_view();
    let mut out: Vec<Option<Json>> = Vec::new();
    let mut i: usize = 0;
    while i < parts.len()
        invariant
            i <= parts@.len(),
            views == parts.deep_view(),
            out@.len() == i,
            forall|k: int| 0 <= k < i ==> model_of(#[trigger] out@[k]) == value_in(views[k]),
        decreases parts.len() - i,
    {
        assert(views[i as int] == parts@[i as int]@);
        out.push(read_part(parts[i].as_str()));
        i += 1;
    }
    assert(models(out@) =~= views.map_values(|p: Seq<char>| value_in(p)));
    out
}

/// The envelope of a text; only one in the shape of a JSON text has one.
pub open spec fn enveloped(body: Seq<char>) -> EnvelopeView {
    if json::json_shape(body) {
        let outline = json::outlined(body);
        envelope_of(outline.lead, outline.done.map_values(|p: Seq<char>| value_in(p)))
    } else {
        EnvelopeView::Absent
    }
}

/// The message in a text.
pub fn parse_binance_message(body: &str) -> (r: Option<BinanceMessage>)
    ensures
        match (r, message_of(enveloped(body@), json::json_text(body@))) {
            (Some(m), Some(v)) => m@ == v,
            (None, None) => true,
            _ => false,
        },
{
    let whole = Json::parse(body);
    if !json::is_shaped(body) {
        return read_message(Envelope::Absent, &whole);
    }
    let outline = json::outline(body);
    let values = read_parts(&outline.parts);
    read_message(read_envelope(outline.lead, &values), &whole)
}

/// An object that names its stream or its data twice is no message of a combined stream, and is
/// left to speak for itself.
pub proof fn repeated_fields_are_no_envelope(
    values: Seq<Option<JsonView>>,
    whole: Option<JsonView>,
)
    requires
        ({
            let n = (values.len() / 2) as int;
            places(values, "stream"@, n).len() > 1 || places(values, "data"@, n).len() > 1
        }),
    ensures
        message_of(envelope_of(Some('{'), values), whole) == spoken(whole),
{
}

/// Each symbol is listened to on two streams, its book to twenty levels and its trades, in the order
/// of the symbols.
pub proof fn two_streams_a_symbol(lower: Seq<Seq<char>>, i: int)
    requires
        0 <= i < lower.len(),
    ensures
        streams_of(lower).len() == 2 * lower.len(),
        streams_of(lower)[2 * i] == lower[i] + "@depth20@100ms"@,
        streams_of(lower)[2 * i + 1] == lower[i] + "@trade"@,
    decreases lower.len(),
{
    let front = lower.drop_last();
    lemma_stream_count(front);
    if i < front.len() {
        two_streams_a_symbol(front, i);
        assert(front[i] == lower[i]);
    }
}

/// How many streams there are.
proof fn lemma_stream_count(lower: Seq<Seq<char>>)
    ensures
        streams_of(lower).len() == 2 * lower.len(),
    decreases lower.len(),
{
    if lower.len() > 0 {
        lemma_stream_count(lower.drop_last());
    }
}

/// Levels are read in order, price before quantity; an entry without two texts in front is left
/// out.
pub proof fn levels_are_read_in_order(items: Seq<JsonView>, item: JsonView)
    ensures
        levels_of(Seq::empty()).len() == 0,
        levels_of(items.push(item)) == (match item {
            JsonView::List(pair) => match (pair[0], pair[1]) {
                (JsonView::Text(price), JsonView::Text(qty)) => if pair.len() >= 2 {
                    levels_of(items).push((price, qty))
                } else {
                    levels_of(items)
                },
                _ => levels_of(items),
            },
            _ => levels_of(items),
        }),
{
    assert(items.push(item).drop_last() =~= items);
}

/// A trade buys where its buyer was not the maker. It and a book update keep their symbol, time,
/// prices and quantities, and bids stay bids and asks stay asks. A field that is missing leaves no
/// message.
pub proof fn messages_keep_their_fields(data: JsonView)
    ensures
        match trade_of(data) {
            Some(BinanceMessageView::Trade { symbol, price, qty, is_buy, timestamp }) => {
                &&& data.text_at("s"@) == Some(symbol) && data.number_at("E"@) == Some(timestamp)
                &&& data.text_at("p"@) == Some(price) && data.text_at("q"@) == Some(qty)
                &&& data.truth_at("m"@) == Some(!is_buy)
            },
            Some(_) => false,
            None => data.text_at("s"@) is None || data.number_at("E"@) is None
                || data.text_at("p"@) is None || data.text_at("q"@) is None
                || data.truth_at("m"@) is None,
        },
        match depth_of(data) {
            Some(BinanceMessageView::Depth { symbol, bids, asks, timestamp }) => {
                &&& data.text_at("s"@) == Some(symbol) && data.number_at("E"@) == Some(timestamp)
                &&& data.field("bids"@) matches Some(JsonView::List(items)) ==> bids == levels_of(
                    items,
                )
                &&& data.field("asks"@) matches Some(JsonView::List(items)) ==> asks == levels_of(
                    items,
                )
                &&& data.field("bids"@) is None ==> bids.len() == 0
                &&& data.field("asks"@) is None ==> asks.len() == 0
            },
            Some(_) => false,
            None => data.text_at("s"@) is None || data.number_at("E"@) is None,
        },
{
}

/// A message of a combined stream is read as its stream's name says, and one of its own as it says
/// itself: a book update or a trade. Any other has no meaning.
pub proof fn messages_are_read_by_kind(symbol: Seq<char>, data: JsonView, whole: JsonView)
    requires
        !text::holds(symbol + "@trade"@, "@depth"@),
    ensures
        message_of(
            EnvelopeView::Named { stream: symbol + "@depth20@100ms"@, data },
            Some(whole),
        ) == depth_of(data),
        message_of(EnvelopeView::Named { stream: symbol + "@trade"@, data }, Some(whole))
            == trade_of(data),
        message_of(EnvelopeView::Unnamed, Some(whole)) is None,
        message_of(EnvelopeView::Absent, None) is None,
        whole.text_at("e"@) == Some("depthUpdate"@) ==> message_of(
            EnvelopeView::Absent,
            Some(whole),
        ) == depth_of(whole),
        whole.text_at("e"@) == Some("trade"@) ==> message_of(EnvelopeView::Absent, Some(whole))
            == trade_of(whole),
        whole.text_at("e"@) is None ==> message_of(EnvelopeView::Absent, Some(whole)) is None,
{
    reveal_strlit("@depth20@100ms");
    reveal_strlit("@depth");
    reveal_strlit("@trade");
    reveal_strlit("depthUpdate");
    reveal_strlit("trade");
    let n = symbol.len() as int;
    let a = symbol + "@depth20@100ms"@;
    assert(a.subrange(n, n + 6) =~= "@depth"@);
    assert(text::holds_at(a, "@depth"@, n));
    let b = symbol + "@trade"@;
    assert(b.subrange(n, n + 6) =~= "@trade"@);
    assert(text::holds_at(b, "@trade"@, n));
    assert("depthUpdate"@.len() != "trade"@.len());
}

/// The places of a name that stands at one place only.
proof fn lemma_one_place(values: Seq<Option<JsonView>>, name: Seq<char>, k: int, n: int)
    requires
        0 <= k,
        forall|i: int|
            0 <= i < n ==> (#[trigger] is_called(values, name, i) <==> i == k),
    ensures
        places(values, name, n) == (if k < n {
            seq![k]
        } else {
            Seq::empty()
        }),
    decreases n,
{
    if n > 0 {
        lemma_one_place(values, name, k, n - 1);
        assert(is_called(values, name, n - 1) <==> n - 1 == k);
        if k == n - 1 {
            assert(Seq::<int>::empty().push(k) =~= seq![k]);
        }
    }
}

/// Whether the `i`-th field has a name.
pub open spec fn is_called(values: Seq<Option<JsonView>>, name: Seq<char>, i: int) -> bool {
    values[2 * i] == Some(JsonView::Text(name))
}

/// An object with one field `stream` that holds a text and one field `data` is a message of that
/// stream with that data, wherever among its fields they stand.
pub proof fn envelopes_are_found_by_name(
    values: Seq<Option<JsonView>>,
    stream: Seq<char>,
    data: JsonView,
    i: int,
    j: int,
)
    requires
        0 <= i,
        2 * i + 1 < values.len(),
        0 <= j,
        2 * j + 1 < values.len(),
        values.len() % 2 == 0,
        forall|k: int|
            0 <= k < values.len() / 2 ==> (match #[trigger] values[2 * k] {
                Some(JsonView::Text(name)) => (name == "stream"@ <==> k == i) && (name == "data"@
                    <==> k == j),
                _ => false,
            }),
        values[2 * i + 1] == Some(JsonView::Text(stream)),
        values[2 * j + 1] == Some(data),
    ensures
        envelope_of(Some('{'), values) == (EnvelopeView::Named { stream, data }),
        envelope_of(Some('['), seq![Some(JsonView::Text(stream)), Some(data)]) == (
        EnvelopeView::Named { stream, data }),
{
    let n = (values.len() / 2) as int;
    assert forall|k: int| 0 <= k < n implies (#[trigger] is_called(values, "stream"@, k) <==> k
        == i) by {
        assert(values[2 * k] is Some);
    }
    assert forall|k: int| 0 <= k < n implies (#[trigger] is_called(values, "data"@, k) <==> k
        == j) by {
        assert(values[2 * k] is Some);
    }
    assert forall|k: int| 0 <= k < n implies #[trigger] is_name(values, k) by {
        assert(values[2 * k] is Some);
    }
    lemma_one_place(values, "stream"@, i, n);
    lemma_one_place(values, "data"@, j, n);
}

} // verus!
