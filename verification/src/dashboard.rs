//! What the dashboard shows and asks for.
use vstd::prelude::*;

use crate::event::{EventPayload, EventPayloadView};
use crate::metrics::{HistogramView, LatencyHistogram, PipelineMetrics};
use crate::text;

verus! {

/// No kill action.
pub const KILL_NONE: u8 = 0;

/// Stop trading and cancel all orders.
pub const KILL_STOP_ALL: u8 = 1;

/// Cancel all orders.
pub const KILL_CANCEL_ALL: u8 = 2;

/// Cancel all orders and disconnect.
pub const KILL_DISCONNECT: u8 = 3;

/// The kill action of a name.
pub open spec fn action_named(name: Seq<char>) -> Option<u8> {
    if name == "stop_all"@ {
        Some(KILL_STOP_ALL)
    } else if name == "cancel_all"@ {
        Some(KILL_CANCEL_ALL)
    } else if name == "disconnect"@ {
        Some(KILL_DISCONNECT)
    } else {
        None
    }
}

/// The kill action of a name.
pub fn kill_code(name: &str) -> (r: Option<u8>)
    ensures
        r == action_named(name@),
{
    if text::is_same(name, "stop_all") {
        Some(KILL_STOP_ALL)
    } else if text::is_same(name, "cancel_all") {
        Some(KILL_CANCEL_ALL)
    } else if text::is_same(name, "disconnect") {
        Some(KILL_DISCONNECT)
    } else {
        None
    }
}

/// The name of the kind of an event in the event stream.
pub open spec fn kind_of(payload: EventPayloadView) -> Seq<char> {
    match payload {
        EventPayloadView::OrderBookUpdate(_) => "book"@,
        EventPayloadView::Trade(_) => "trade"@,
        EventPayloadView::OrderNew(_) => "order_new"@,
        EventPayloadView::OrderFill(_) | EventPayloadView::OrderPartialFill(_) => "fill"@,
        EventPayloadView::OrderReject(_) => "reject"@,
        EventPayloadView::OrderCancel(_) => "cancel"@,
        _ => "other"@,
    }
}

/// The name of the kind of an event in the event stream.
pub fn event_kind(payload: &EventPayload) -> (r: &'static str)
    ensures
        r@ == kind_of(payload@),
{
    match payload {
        EventPayload::OrderBookUpdate(_) => "book",
        EventPayload::Trade(_) => "trade",
        EventPayload::OrderNew(_) => "order_new",
        EventPayload::OrderFill(_) | EventPayload::OrderPartialFill(_) => "fill",
        EventPayload::OrderReject(_) => "reject",
        EventPayload::OrderCancel(_) => "cancel",
        _ => "other",
    }
}

/// How long a stage takes, in nanoseconds.
#[derive(Debug, Clone, Copy, PartialEq, Eq, Structural)]
pub struct Latency {
    pub count: u64,
    pub avg_ns: u64,
    pub min_ns: u64,
    pub max_ns: u64,
}

/// How long the stage of a histogram takes.
pub open spec fn latency_of(h: HistogramView) -> Latency {
    Latency {
        count: h.count,
        avg_ns: if h.count > 0 {
            h.sum_ns / h.count
        } else {
            0
        },
        min_ns: if h.min_ns == u64::MAX {
            0
        } else {
            h.min_ns
        },
        max_ns: h.max_ns,
    }
}

/// How long the stage of a histogram takes.
fn latency(h: &LatencyHistogram) -> (r: Latency)
    ensures
        r == latency_of(h@),
{
    Latency { count: h.count(), avg_ns: h.avg_ns(), min_ns: h.min_ns(), max_ns: h.max_ns() }
}

/// The stages that the dashboard shows, by their names.
pub fn latencies(metrics: &PipelineMetrics) -> (r: Vec<(&'static str, Latency)>)
    ensures
        r@.len() == 8,
        r@[0].0@ == "feed_recv"@ && r@[0].1 == latency_of(metrics.feed_recv@),
        r@[1].0@ == "feed_normalize"@ && r@[1].1 == latency_of(metrics.feed_normalize@),
        r@[2].0@ == "strategy_compute"@ && r@[2].1 == latency_of(metrics.strategy_compute@),
        r@[3].0@ == "risk_check"@ && r@[3].1 == latency_of(metrics.risk_check@),
        r@[4].0@ == "order_submit"@ && r@[4].1 == latency_of(metrics.order_submit@),
        r@[5].0@ == "order_to_ack"@ && r@[5].1 == latency_of(metrics.order_to_ack@),
        r@[6].0@ == "order_to_fill"@ && r@[6].1 == latency_of(metrics.order_to_fill@),
        r@[7].0@ == "state_hash"@ && r@[7].1 == latency_of(metrics.state_hash@),
{
    let mut out: Vec<(&'static str, Latency)> = Vec::new();
    out.push(("feed_recv", latency(&metrics.feed_recv)));
    out.push(("feed_normalize", latency(&metrics.feed_normalize)));
    out.push(("strategy_compute", latency(&metrics.strategy_compute)));
    out.push(("risk_check", latency(&metrics.risk_check)));
    out.push(("order_submit", latency(&metrics.order_submit)));
    out.push(("order_to_ack", latency(&metrics.order_to_ack)));
    out.push(("order_to_fill", latency(&metrics.order_to_fill)));
    out.push(("state_hash", latency(&metrics.state_hash)));
    out
}

/// The three buttons have the numbers one to three, and no other name has one.
pub proof fn kill_buttons(name: Seq<char>)
    ensures
        action_named("stop_all"@) == Some(1u8),
        action_named("cancel_all"@) == Some(2u8),
        action_named("disconnect"@) == Some(3u8),
        name != "stop_all"@ && name != "cancel_all"@ && name != "disconnect"@
            ==> action_named(name) is None,
{
    reveal_strlit("stop_all");
    reveal_strlit("cancel_all");
    reveal_strlit("disconnect");
    assert("stop_all"@.len() == 8);
    assert("cancel_all"@.len() == 10 && "cancel_all"@[0] == 'c');
    assert("disconnect"@.len() == 10 && "disconnect"@[0] == 'd');
}

/// The average latency is the sum divided by the count, rounded down; without samples all figures
/// are zero.
pub proof fn latencies_are_averaged(h: HistogramView)
    ensures
        ({
            let l = latency_of(h);
            &&& l.count == h.count && l.max_ns == h.max_ns
            &&& h.count > 0 ==> l.avg_ns * h.count <= h.sum_ns < (l.avg_ns + 1) * h.count
            &&& h.count == 0 ==> l.avg_ns == 0
            &&& h.min_ns < u64::MAX ==> l.min_ns == h.min_ns
            &&& h.min_ns == u64::MAX ==> l.min_ns == 0
        }),
{
    if h.count > 0 {
        let s = h.sum_ns as int;
        let c = h.count as int;
        let q = s / c;
        vstd::arithmetic::div_mod::lemma_fundamental_div_mod(s, c);
        vstd::arithmetic::div_mod::lemma_mod_bound(s, c);
        assert(q * c <= s < (q + 1) * c) by (nonlinear_arith)
            requires
                s == c * q + s % c,
                0 <= s % c < c,
        ;
    }
}

} // verus!
