//! Risk limits on orders and positions.
use vstd::prelude::*;
use vstd::string::*;

use crate::error::AtomicError;
use crate::num;
use crate::text;
use crate::types::{Position, PositionView, Price, Qty, Side, Symbol};

verus! {

/// Risk limits.
#[derive(Debug, Clone, Copy, PartialEq, Eq, Structural)]
pub struct RiskLimits {
    /// Maximum position size per symbol, in base units.
    pub max_position_qty: u64,
    /// Maximum notional exposure per symbol.
    pub max_notional: i64,
    /// Maximum total notional across all positions.
    pub max_total_notional: i64,
    /// Maximum size of a single order.
    pub max_order_qty: u64,
    /// Maximum number of open orders.
    pub max_open_orders: usize,
    /// Profit and loss below which the kill switch goes on.
    pub max_loss: i64,
    /// Maximum orders per second.
    pub max_orders_per_second: u32,
    /// Maximum spread in pipettes at which to quote; zero for no limit.
    pub max_spread: i64,
    /// Maximum losing round-trips in a row before the circuit breaker; zero for no limit.
    pub max_consecutive_losses: u32,
    /// Maximum drawdown from the peak, in basis points; zero for no limit. It pauses trading
    /// until the daily reset.
    pub max_drawdown_bps: u32,
}

impl Default for RiskLimits {
    fn default() -> (r: Self)
        ensures
            r == (RiskLimits {
                max_position_qty: 1_000_000_000,
                max_notional: 500_000_000_000,
                max_total_notional: 1_000_000_000_000,
                max_order_qty: 100_000_000,
                max_open_orders: 100,
                max_loss: -10_000_000_000 as i64,
                max_orders_per_second: 50,
                max_spread: 5000,
                max_consecutive_losses: 5,
                max_drawdown_bps: 200,
            }),
    {
        RiskLimits {
            max_position_qty: 1_000_000_000,
            max_notional: 500_000_000_000,
            max_total_notional: 1_000_000_000_000,
            max_order_qty: 100_000_000,
            max_open_orders: 100,
            max_loss: -10_000_000_000,
            max_orders_per_second: 50,
            max_spread: 5000,
            max_consecutive_losses: 5,
            max_drawdown_bps: 200,
        }
    }
}

/// Why an order is refused.
pub enum Refusal {
    /// The kill switch is on, or goes on now.
    KillSwitch(Seq<char>),
    /// A limit would be broken.
    LimitExceeded(Seq<char>),
}

/// Whether an error says that an order is refused for a reason.
pub open spec fn says(e: AtomicError, why: Refusal) -> bool {
    match (e, why) {
        (AtomicError::KillSwitch(t), Refusal::KillSwitch(text)) => t@ == text,
        (AtomicError::RiskLimitExceeded(t), Refusal::LimitExceeded(text)) => t@ == text,
        _ => false,
    }
}

/// A text that compares an unsigned amount with its limit.
pub open spec fn over(what: Seq<char>, amount: nat, verb: Seq<char>, limit: nat) -> Refusal {
    Refusal::LimitExceeded(what + text::decimal(amount) + verb + text::decimal(limit))
}

/// A text that compares a signed amount with its limit.
pub open spec fn over_signed(what: Seq<char>, amount: int, verb: Seq<char>, limit: int) -> Seq<
    char,
> {
    what + text::signed_decimal(amount) + verb + text::signed_decimal(limit)
}

/// One second in nanoseconds.
pub const SECOND_NS: u64 = 1_000_000_000;

/// The timestamps less than one second old.
pub open spec fn recent(timestamps: Seq<u64>, now: u64) -> Seq<u64> {
    timestamps.filter(|ts: u64| now - ts < SECOND_NS)
}

/// The state of a [`RiskEngine`].
#[verifier::ext_equal]
pub struct RiskView {
    pub limits: RiskLimits,
    pub killed: bool,
    pub open_order_count: usize,
    pub total_pnl: i64,
    pub order_timestamps: Seq<u64>,
    pub current_spread: i64,
    pub consecutive_losses: u32,
    pub circuit_breaker: bool,
    pub peak_pnl: i64,
}

/// The size of a position after an order: on the same side they add up, else they offset.
pub open spec fn resulting_qty(position: PositionView, side: Side, qty: Qty) -> int {
    if position.side == side {
        position.qty.0 + qty.0
    } else {
        num::abs(position.qty.0 - qty.0)
    }
}

/// The signed notional of a quantity at a price.
pub open spec fn notional_of(qty: u64, price: Price) -> int {
    (qty as i64) * price.0
}

impl RiskView {
    /// Why the state alone or the size of the order refuses it.
    pub open spec fn gate(self, qty: Qty) -> Option<Refusal> {
        if self.killed {
            Some(Refusal::KillSwitch("kill switch is active"@))
        } else if self.circuit_breaker {
            Some(
                Refusal::LimitExceeded("circuit breaker active (consecutive losses or drawdown)"@),
            )
        } else if self.limits.max_spread > 0 && self.current_spread > self.limits.max_spread {
            Some(
                Refusal::LimitExceeded(
                    over_signed(
                        "spread "@,
                        self.current_spread as int,
                        " exceeds max "@,
                        self.limits.max_spread as int,
                    ) + " — skipping quote"@,
                ),
            )
        } else if qty.0 > self.limits.max_order_qty {
            Some(
                over(
                    "order qty "@,
                    qty.0 as nat,
                    " exceeds max "@,
                    self.limits.max_order_qty as nat,
                ),
            )
        } else {
            None
        }
    }

    /// Why the position that an order leads to refuses it.
    pub open spec fn position_gate(self, position: PositionView, side: Side, qty: Qty, price: Price) -> Option<Refusal> {
        let new_qty = resulting_qty(position, side, qty);
        let notional = notional_of(new_qty as u64, price);
        if new_qty > self.limits.max_position_qty {
            Some(
                over(
                    "resulting position "@,
                    new_qty as nat,
                    " exceeds max "@,
                    self.limits.max_position_qty as nat,
                ),
            )
        } else if notional > self.limits.max_notional {
            Some(
                Refusal::LimitExceeded(
                    over_signed(
                        "notional "@,
                        notional,
                        " exceeds max "@,
                        self.limits.max_notional as int,
                    ),
                ),
            )
        } else if notional > self.limits.max_total_notional {
            Some(
                Refusal::LimitExceeded(
                    over_signed(
                        "total notional "@,
                        notional,
                        " exceeds aggregate max "@,
                        self.limits.max_total_notional as int,
                    ),
                ),
            )
        } else {
            None
        }
    }

    /// Why an order is refused before the order rate is looked at.
    pub open spec fn early_refusal(
        self,
        side: Side,
        qty: Qty,
        price: Price,
        position: Option<PositionView>,
    ) -> Option<Refusal> {
        match self.gate(qty) {
            Some(why) => Some(why),
            None => match (match position {
                Some(p) => self.position_gate(p, side, qty, price),
                None => None,
            }) {
                Some(why) => Some(why),
                None => if self.open_order_count >= self.limits.max_open_orders {
                    Some(
                        over(
                            "open orders "@,
                            self.open_order_count as nat,
                            " exceeds max "@,
                            self.limits.max_open_orders as nat,
                        ),
                    )
                } else {
                    None
                },
            },
        }
    }

    /// The state with the timestamps of the last second only.
    pub open spec fn aged(self, now: u64) -> RiskView {
        RiskView { order_timestamps: recent(self.order_timestamps, now), ..self }
    }

    /// What becomes of an order, and the state afterwards.
    pub open spec fn checked(
        self,
        side: Side,
        qty: Qty,
        price: Price,
        position: Option<PositionView>,
        now: u64,
    ) -> (Option<Refusal>, RiskView) {
        match self.early_refusal(side, qty, price, position) {
            Some(why) => (Some(why), self),
            None => {
                let aged = self.aged(now);
                if aged.order_timestamps.len() >= self.limits.max_orders_per_second {
                    (Some(Refusal::LimitExceeded("order rate limit exceeded"@)), aged)
                } else if self.total_pnl < self.limits.max_loss {
                    (
                        Some(Refusal::KillSwitch("max loss exceeded"@)),
                        RiskView { killed: true, ..aged },
                    )
                } else {
                    (
                        None,
                        RiskView { order_timestamps: aged.order_timestamps.push(now), ..aged },
                    )
                }
            },
        }
    }

    /// Whether the sizes that a check computes stay within their types, as far as it gets, and
    /// no recorded order lies in the future.
    pub open spec fn checkable(
        self,
        side: Side,
        qty: Qty,
        price: Price,
        position: Option<PositionView>,
        now: u64,
    ) -> bool {
        &&& self.gate(qty) is None && position is Some ==> {
            let new_qty = resulting_qty(position->Some_0, side, qty);
            &&& new_qty <= u64::MAX
            &&& new_qty <= self.limits.max_position_qty ==> i64::MIN <= notional_of(
                new_qty as u64,
                price,
            ) <= i64::MAX
        }
        &&& self.early_refusal(side, qty, price, position) is None ==> forall|i: int|
            0 <= i < self.order_timestamps.len() ==> #[trigger] self.order_timestamps[i] <= now
    }

    /// The state after a change of profit and loss.
    pub open spec fn with_pnl(self, delta: i64) -> RiskView {
        let total = self.total_pnl + delta;
        let peak = num::max(self.peak_pnl as int, total);
        RiskView {
            total_pnl: total as i64,
            peak_pnl: peak as i64,
            circuit_breaker: self.circuit_breaker || (self.limits.max_drawdown_bps > 0 && peak > 0
                && (peak - total) * 10_000 > peak * self.limits.max_drawdown_bps),
            ..self
        }
    }

    /// The state after one more losing round-trip.
    pub open spec fn with_loss(self) -> RiskView {
        let losses = self.consecutive_losses + 1;
        RiskView {
            consecutive_losses: losses as u32,
            circuit_breaker: self.circuit_breaker || (self.limits.max_consecutive_losses > 0
                && losses >= self.limits.max_consecutive_losses),
            ..self
        }
    }

    /// The state after one more order was opened.
    pub open spec fn with_opened(self) -> RiskView {
        RiskView { open_order_count: (self.open_order_count + 1) as usize, ..self }
    }

    /// The state after an open order was closed, if there was one.
    pub open spec fn with_one_closed(self) -> RiskView {
        RiskView { open_order_count: num::max(self.open_order_count - 1, 0) as usize, ..self }
    }

    /// The state on a new day.
    pub open spec fn renewed(self) -> RiskView {
        RiskView {
            circuit_breaker: false,
            consecutive_losses: 0,
            peak_pnl: 0,
            total_pnl: 0,
            ..self
        }
    }

    /// Whether the amounts of a change of profit and loss stay within 64 bits.
    pub open spec fn pnl_fits(self, delta: i64) -> bool {
        let total = self.total_pnl + delta;
        let peak = num::max(self.peak_pnl as int, total);
        &&& i64::MIN <= total <= i64::MAX
        &&& self.limits.max_drawdown_bps > 0 && peak > 0 ==> {
            &&& (peak - total) * 10_000 <= i64::MAX
            &&& peak * self.limits.max_drawdown_bps <= i64::MAX
        }
    }
}

/// Validates orders against limits, and holds the kill switch and the circuit breaker.
pub struct RiskEngine {
    limits: RiskLimits,
    kill_switch: bool,
    open_order_count: usize,
    total_pnl: i64,
    order_timestamps: Vec<u64>,
    current_spread: i64,
    consecutive_losses: u32,
    circuit_breaker: bool,
    peak_pnl: i64,
}

impl View for RiskEngine {
    type V = RiskView;

    closed spec fn view(&self) -> RiskView {
        RiskView {
            limits: self.limits,
            killed: self.kill_switch,
            open_order_count: self.open_order_count,
            total_pnl: self.total_pnl,
            order_timestamps: self.order_timestamps@,
            current_spread: self.current_spread,
            consecutive_losses: self.consecutive_losses,
            circuit_breaker: self.circuit_breaker,
            peak_pnl: self.peak_pnl,
        }
    }
}

/// Writes `what`, an amount, `verb` and a limit, all unsigned.
fn over_text(what: &str, amount: u64, verb: &str, limit: u64) -> (r: String)
    ensures
        r@ == what@ + text::decimal(amount as nat) + verb@ + text::decimal(limit as nat),
{
    let mut out = what.to_owned();
    text::push_u64(&mut out, amount);
    out.append(verb);
    text::push_u64(&mut out, limit);
    out
}

/// Writes `what`, an amount, `verb` and a limit, all signed.
fn over_signed_text(what: &str, amount: i64, verb: &str, limit: i64) -> (r: String)
    ensures
        r@ == over_signed(what@, amount as int, verb@, limit as int),
{
    let mut out = what.to_owned();
    text::push_i64(&mut out, amount);
    out.append(verb);
    text::push_i64(&mut out, limit);
    out
}

impl RiskEngine {
    /// An engine with nothing traded yet.
    pub fn new(limits: RiskLimits) -> (r: Self)
        ensures
            r@ == (RiskView {
                limits,
                killed: false,
                open_order_count: 0,
                total_pnl: 0,
                order_timestamps: Seq::empty(),
                current_spread: 0,
                consecutive_losses: 0,
                circuit_breaker: false,
                peak_pnl: 0,
            }),
    {
        RiskEngine {
            limits,
            kill_switch: false,
            open_order_count: 0,
            total_pnl: 0,
            order_timestamps: Vec::new(),
            current_spread: 0,
            consecutive_losses: 0,
            circuit_breaker: false,
            peak_pnl: 0,
        }
    }

    /// Whether the kill switch is on.
    pub fn is_killed(&self) -> (r: bool)
        ensures
            r == self@.killed,
    {
        self.kill_switch
    }

    /// Turns the kill switch on, whatever the reason.
    pub fn activate_kill_switch(&mut self, _reason: &str)
        ensures
            final(self)@ == (RiskView { killed: true, ..old(self)@ }),
    {
        self.kill_switch = true;
    }

    /// Turns the kill switch off.
    pub fn reset_kill_switch(&mut self)
        ensures
            final(self)@ == (RiskView { killed: false, ..old(self)@ }),
    {
        self.kill_switch = false;
    }

    /// Validates the position that an order leads to.
    fn check_position(&self, side: Side, qty: Qty, price: Price, pos: &Position) -> (r: Result<
        (),
        AtomicError,
    >)
        requires
            resulting_qty(pos@, side, qty) <= u64::MAX,
            resulting_qty(pos@, side, qty) <= self@.limits.max_position_qty ==> i64::MIN
                <= notional_of(resulting_qty(pos@, side, qty) as u64, price) <= i64::MAX,
        ensures
            match (r, self@.position_gate(pos@, side, qty, price)) {
                (Ok(_), None) => true,
                (Err(e), Some(why)) => says(e, why),
                _ => false,
            },
    {
        let new_qty: u64 = if pos.side == side {
            pos.qty.0 + qty.0
        } else if qty.0 > pos.qty.0 {
            qty.0 - pos.qty.0
        } else {
            pos.qty.0 - qty.0
        };
        if new_qty > self.limits.max_position_qty {
            return Err(
                AtomicError::RiskLimitExceeded(
                    over_text(
                        "resulting position ",
                        new_qty,
                        " exceeds max ",
                        self.limits.max_position_qty,
                    ),
                ),
            );
        }
        let notional: i64 = new_qty as i64 * price.0;
        if notional > self.limits.max_notional {
            return Err(
                AtomicError::RiskLimitExceeded(
                    over_signed_text(
                        "notional ",
                        notional,
                        " exceeds max ",
                        self.limits.max_notional,
                    ),
                ),
            );
        }
        if notional > self.limits.max_total_notional {
            return Err(
                AtomicError::RiskLimitExceeded(
                    over_signed_text(
                        "total notional ",
                        notional,
                        " exceeds aggregate max ",
                        self.limits.max_total_notional,
                    ),
                ),
            );
        }
        Ok(())
    }

    /// Forgets the timestamps that are a second old or more.
    fn age(&mut self, now: u64)
        requires
            forall|i: int|
                0 <= i < old(self)@.order_timestamps.len() ==> #[trigger] old(
                    self,
                )@.order_timestamps[i] <= now,
        ensures
            final(self)@ == old(self)@.aged(now),
    {
        let ghost s = self.order_timestamps@;
        let ghost fresh = |ts: u64| now - ts < SECOND_NS;
        let mut kept: Vec<u64> = Vec::new();
        let mut i: usize = 0;
        proof {
            reveal(Seq::filter);
            assert(s.take(0) =~= Seq::empty());
            assert forall|k: int| 0 <= k < s.len() implies #[trigger] s[k] <= now by {
                assert(old(self)@.order_timestamps[k] <= now);
            }
        }
        while i < self.order_timestamps.len()
            invariant
                s == self.order_timestamps@,
                i <= s.len(),
                fresh == (|ts: u64| now - ts < SECOND_NS),
                forall|k: int| 0 <= k < s.len() ==> #[trigger] s[k] <= now,
                kept@ == s.take(i as int).filter(fresh),
            decreases self.order_timestamps.len() - i,
        {
            let ts: u64 = self.order_timestamps[i];
            proof {
                reveal(Seq::filter);
                assert(s.take(i + 1).drop_last() =~= s.take(i as int));
                assert(s.take(i + 1).last() == s[i as int]);
            }
            if now - ts < SECOND_NS {
                kept.push(ts);
            }
            i += 1;
        }
        assert(s.take(i as int) =~= s);
        self.order_timestamps = kept;
    }

    /// Whether the sizes that a check of an order computes stay within their types, as far as it
    /// gets, and no recorded order lies in the future.
    pub fn is_check_in_range(
        &self,
        side: Side,
        qty: Qty,
        price: Price,
        position: Option<&Position>,
        now: u64,
    ) -> (r: bool)
        ensures
            r == self@.checkable(
                side,
                qty,
                price,
                match position {
                    Some(p) => Some(p@),
                    None => None,
                },
                now,
            ),
    {
        if self.kill_switch || self.circuit_breaker || self.limits.max_spread > 0
            && self.current_spread > self.limits.max_spread || qty.0 > self.limits.max_order_qty {
            return true;
        }
        if let Some(pos) = position {
            let new_qty: u128 = if pos.side == side {
                pos.qty.0 as u128 + qty.0 as u128
            } else if qty.0 > pos.qty.0 {
                (qty.0 - pos.qty.0) as u128
            } else {
                (pos.qty.0 - qty.0) as u128
            };
            if new_qty > u64::MAX as u128 {
                return false;
            }
            if new_qty > self.limits.max_position_qty as u128 {
                return true;
            }
            let size: i64 = new_qty as u64 as i64;
            proof {
                num::lemma_product_fits(size as int, price.0 as int);
            }
            let notional: i128 = size as i128 * price.0 as i128;
            if !num::in_i64(notional) {
                return false;
            }
            if notional > self.limits.max_notional as i128 || notional
                > self.limits.max_total_notional as i128 {
                return true;
            }
        }
        if self.open_order_count >= self.limits.max_open_orders {
            return true;
        }
        let ghost view = match position {
            Some(p) => Some(p@),
            None => None,
        };
        let mut i: usize = 0;
        while i < self.order_timestamps.len()
            invariant
                i <= self.order_timestamps@.len(),
                view == (match position {
                    Some(p) => Some(p@),
                    None => None,
                }),
                self@.early_refusal(side, qty, price, view) is None,
                forall|k: int| 0 <= k < i ==> #[trigger] self.order_timestamps@[k] <= now,
            decreases self.order_timestamps.len() - i,
        {
            if self.order_timestamps[i] > now {
                assert(self@.order_timestamps[i as int] > now);
                return false;
            }
            i += 1;
        }
        true
    }

    /// Validates a new order. A refused one is an error; an accepted one counts toward the
    /// order rate.
    pub fn check_order(
        &mut self,
        _symbol: &Symbol,
        side: Side,
        qty: Qty,
        price: Price,
        position: Option<&Position>,
        current_ts: u64,
    ) -> (r: Result<(), AtomicError>)
        requires
            old(self)@.checkable(
                side,
                qty,
                price,
                match position {
                    Some(p) => Some(p@),
                    None => None,
                },
                current_ts,
            ),
        ensures
            ({
                let pos = match position {
                    Some(p) => Some(p@),
                    None => None,
                };
                let (refusal, after) = old(self)@.checked(side, qty, price, pos, current_ts);
                &&& final(self)@ == after
                &&& match (r, refusal) {
                    (Ok(_), None) => true,
                    (Err(e), Some(why)) => says(e, why),
                    _ => false,
                }
            }),
    {
        if self.is_killed() {
            return Err(AtomicError::KillSwitch("kill switch is active".to_owned()));
        }
        if self.circuit_breaker {
            return Err(
                AtomicError::RiskLimitExceeded(
                    "circuit breaker active (consecutive losses or drawdown)".to_owned(),
                ),
            );
        }
        if self.limits.max_spread > 0 && self.current_spread > self.limits.max_spread {
            let mut message = over_signed_text(
                "spread ",
                self.current_spread,
                " exceeds max ",
                self.limits.max_spread,
            );
            message.append(" — skipping quote");
            return Err(AtomicError::RiskLimitExceeded(message));
        }
        if qty.0 > self.limits.max_order_qty {
            return Err(
                AtomicError::RiskLimitExceeded(
                    over_text("order qty ", qty.0, " exceeds max ", self.limits.max_order_qty),
                ),
            );
        }
        if let Some(pos) = position {
            match self.check_position(side, qty, price, pos) {
                Err(e) => {
                    return Err(e);
                },
                Ok(_) => {},
            }
        }
        if self.open_order_count >= self.limits.max_open_orders {
            return Err(
                AtomicError::RiskLimitExceeded(
                    over_text(
                        "open orders ",
                        self.open_order_count as u64,
                        " exceeds max ",
                        self.limits.max_open_orders as u64,
                    ),
                ),
            );
        }
        self.age(current_ts);
        if self.order_timestamps.len() as u64 >= self.limits.max_orders_per_second as u64 {
            return Err(AtomicError::RiskLimitExceeded("order rate limit exceeded".to_owned()));
        }
        if self.total_pnl < self.limits.max_loss {
            self.activate_kill_switch("total PnL below max loss");
            return Err(AtomicError::KillSwitch("max loss exceeded".to_owned()));
        }
        self.order_timestamps.push(current_ts);
        Ok(())
    }

    /// Counts an order that was opened.
    pub fn on_order_opened(&mut self)
        requires
            old(self)@.open_order_count < usize::MAX,
        ensures
            final(self)@ == old(self)@.with_opened(),
    {
        self.open_order_count = self.open_order_count + 1;
    }

    /// Counts an order that was closed; the count does not go below zero.
    pub fn on_order_closed(&mut self)
        ensures
            final(self)@ == old(self)@.with_one_closed(),
    {
        if self.open_order_count > 0 {
            self.open_order_count = self.open_order_count - 1;
        }
    }

    /// Adds to profit and loss, and turns the circuit breaker on where the drawdown from the
    /// peak exceeds its limit.
    pub fn update_pnl(&mut self, pnl_delta: i64)
        requires
            old(self)@.pnl_fits(pnl_delta),
        ensures
            final(self)@ == old(self)@.with_pnl(pnl_delta),
    {
        self.total_pnl = self.total_pnl + pnl_delta;
        if self.total_pnl > self.peak_pnl {
            self.peak_pnl = self.total_pnl;
        }
        if self.limits.max_drawdown_bps > 0 && self.peak_pnl > 0 {
            proof {
                let p = self.peak_pnl as int;
                let b = self.limits.max_drawdown_bps as int;
                assert(p * b >= 0) by (nonlinear_arith)
                    requires
                        p > 0,
                        b > 0,
                ;
            }
            let drawdown: i64 = self.peak_pnl - self.total_pnl;
            if drawdown * 10_000 > self.peak_pnl * self.limits.max_drawdown_bps as i64 {
                self.circuit_breaker = true;
            }
        }
    }

    /// Whether the amounts of a change of profit and loss stay within 64 bits.
    pub fn is_pnl_in_range(&self, pnl_delta: i64) -> (r: bool)
        ensures
            r == self@.pnl_fits(pnl_delta),
    {
        let total: i128 = self.total_pnl as i128 + pnl_delta as i128;
        if total < i64::MIN as i128 || total > i64::MAX as i128 {
            return false;
        }
        let peak: i128 = if total > self.peak_pnl as i128 {
            total
        } else {
            self.peak_pnl as i128
        };
        if self.limits.max_drawdown_bps == 0 || peak <= 0 {
            return true;
        }
        proof {
            let b = self.limits.max_drawdown_bps as int;
            assert(0 <= peak * b <= 0x7fff_ffff_ffff_ffff * 0xffff_ffff) by (nonlinear_arith)
                requires
                    0 < peak <= 0x7fff_ffff_ffff_ffff,
                    0 < b <= 0xffff_ffff,
            ;
        }
        (peak - total) * 10_000 <= i64::MAX as i128 && peak * (self.limits.max_drawdown_bps
            as i128) <= i64::MAX as i128
    }

    /// Records a winning round-trip.
    pub fn record_win(&mut self)
        ensures
            final(self)@ == (RiskView { consecutive_losses: 0, ..old(self)@ }),
    {
        self.consecutive_losses = 0;
    }

    /// Records a losing round-trip; too many in a row turn the circuit breaker on.
    pub fn record_loss(&mut self)
        requires
            old(self)@.consecutive_losses < u32::MAX,
        ensures
            final(self)@ == old(self)@.with_loss(),
    {
        self.consecutive_losses = self.consecutive_losses + 1;
        if self.limits.max_consecutive_losses > 0 && self.consecutive_losses
            >= self.limits.max_consecutive_losses {
            self.circuit_breaker = true;
        }
    }

    /// Sets the current spread.
    pub fn update_spread(&mut self, spread: i64)
        ensures
            final(self)@ == (RiskView { current_spread: spread, ..old(self)@ }),
    {
        self.current_spread = spread;
    }

    /// Clears the circuit breaker, the losses in a row, and profit and loss with its peak.
    pub fn daily_reset(&mut self)
        ensures
            final(self)@ == old(self)@.renewed(),
    {
        self.circuit_breaker = false;
        self.consecutive_losses = 0;
        self.peak_pnl = 0;
        self.total_pnl = 0;
    }

    /// Profit and loss since the last reset.
    pub fn total_pnl(&self) -> (r: i64)
        ensures
            r == self@.total_pnl,
    {
        self.total_pnl
    }

    /// How many orders are open.
    pub fn open_order_count(&self) -> (r: usize)
        ensures
            r == self@.open_order_count,
    {
        self.open_order_count
    }

    /// Whether the circuit breaker is on.
    pub fn is_circuit_breaker(&self) -> (r: bool)
        ensures
            r == self@.circuit_breaker,
    {
        self.circuit_breaker
    }

    /// How many round-trips were lost in a row.
    pub fn consecutive_losses(&self) -> (r: u32)
        ensures
            r == self@.consecutive_losses,
    {
        self.consecutive_losses
    }

    /// The highest profit and loss since the last reset.
    pub fn peak_pnl(&self) -> (r: i64)
        ensures
            r == self@.peak_pnl,
    {
        self.peak_pnl
    }
}

/// While the kill switch or the circuit breaker is on, every order is refused and nothing
/// changes.
pub proof fn halted_refuses_all(
    state: RiskView,
    side: Side,
    qty: Qty,
    price: Price,
    position: Option<PositionView>,
    now: u64,
)
    requires
        state.killed || state.circuit_breaker,
    ensures
        state.checked(side, qty, price, position, now).0 is Some,
        state.checked(side, qty, price, position, now).1 == state,
{
}

/// An accepted order breaks no limit, and no more orders than the rate allows were accepted in
/// the last second, this one included.
pub proof fn accepted_orders_keep_limits(
    state: RiskView,
    side: Side,
    qty: Qty,
    price: Price,
    position: Option<PositionView>,
    now: u64,
)
    requires
        state.checked(side, qty, price, position, now).0 is None,
    ensures
        ({
            let after = state.checked(side, qty, price, position, now).1;
            &&& qty.0 <= state.limits.max_order_qty
            &&& position is Some ==> resulting_qty(position->Some_0, side, qty)
                <= state.limits.max_position_qty
            &&& position is Some ==> {
                let notional = notional_of(
                    resulting_qty(position->Some_0, side, qty) as u64,
                    price,
                );
                &&& notional <= state.limits.max_notional
                &&& notional <= state.limits.max_total_notional
            }
            &&& state.limits.max_spread > 0 ==> state.current_spread <= state.limits.max_spread
            &&& state.open_order_count < state.limits.max_open_orders
            &&& state.total_pnl >= state.limits.max_loss
            &&& recent(after.order_timestamps, now).len() <= state.limits.max_orders_per_second
            &&& !after.killed
        }),
{
    let fresh = |ts: u64| now - ts < SECOND_NS;
    let kept = recent(state.order_timestamps, now);
    let after = kept.push(now);
    reveal(Seq::filter);
    assert(after.drop_last() =~= kept);
    assert(after.filter(fresh) == kept.filter(fresh).push(now));
    assert(kept.filter(fresh).len() <= kept.len()) by {
        kept.lemma_filter_len(fresh);
    }
}

/// Only a reset by hand turns the kill switch off: no check, no profit or loss and no new day
/// does.
pub proof fn kill_switch_stays(
    state: RiskView,
    side: Side,
    qty: Qty,
    price: Price,
    position: Option<PositionView>,
    now: u64,
    delta: i64,
)
    requires
        state.killed,
    ensures
        state.checked(side, qty, price, position, now).1.killed,
        state.with_pnl(delta).killed,
        state.with_loss().killed,
        state.renewed().killed,
{
}

/// The circuit breaker stays on until a new day, which turns it off.
pub proof fn circuit_breaker_lasts_the_day(
    state: RiskView,
    side: Side,
    qty: Qty,
    price: Price,
    position: Option<PositionView>,
    now: u64,
    delta: i64,
)
    requires
        state.circuit_breaker,
    ensures
        state.checked(side, qty, price, position, now).1.circuit_breaker,
        state.with_pnl(delta).circuit_breaker,
        state.with_loss().circuit_breaker,
        !state.renewed().circuit_breaker,
{
}

/// The peak never falls below the current profit and loss.
pub proof fn peak_bounds_pnl(state: RiskView, delta: i64)
    requires
        state.pnl_fits(delta),
    ensures
        state.with_pnl(delta).peak_pnl >= state.with_pnl(delta).total_pnl,
        state.with_pnl(delta).peak_pnl >= state.peak_pnl,
{
}

/// A change of profit and loss adds to the total, and the peak is the larger of the old peak and
/// the new total. With a limit on the drawdown and a positive peak, the breaker goes on exactly
/// where the loss from the peak is more than `max_drawdown_bps` ten-thousandths of the peak.
pub proof fn drawdown_breaks_the_circuit(state: RiskView, delta: i64)
    requires
        state.pnl_fits(delta),
    ensures
        ({
            let after = state.with_pnl(delta);
            let lost = after.peak_pnl - after.total_pnl;
            &&& after.total_pnl == state.total_pnl + delta
            &&& after.peak_pnl == state.peak_pnl || after.peak_pnl == after.total_pnl
            &&& after.peak_pnl >= state.peak_pnl && after.peak_pnl >= after.total_pnl
            &&& !state.circuit_breaker && state.limits.max_drawdown_bps > 0 && after.peak_pnl > 0
                ==> (after.circuit_breaker <==> lost * 10_000 > state.limits.max_drawdown_bps
                * after.peak_pnl)
            &&& !state.circuit_breaker && (state.limits.max_drawdown_bps == 0 || after.peak_pnl
                <= 0) ==> !after.circuit_breaker
            &&& state.circuit_breaker ==> after.circuit_breaker
            &&& after.limits == state.limits && after.killed == state.killed
            &&& after.open_order_count == state.open_order_count
            &&& after.order_timestamps == state.order_timestamps
            &&& after.current_spread == state.current_spread
            &&& after.consecutive_losses == state.consecutive_losses
        }),
{
    let after = state.with_pnl(delta);
    let p = after.peak_pnl as int;
    let b = state.limits.max_drawdown_bps as int;
    assert(p * b == b * p) by (nonlinear_arith);
}

/// The state after some losing round-trips in a row.
pub open spec fn after_losses(state: RiskView, n: nat) -> RiskView
    decreases n,
{
    if n == 0 {
        state
    } else {
        after_losses(state, (n - 1) as nat).with_loss()
    }
}

/// From a fresh start, losing round-trips in a row are counted, and turn the breaker on with the
/// one that makes them as many as the limit allows, not before; without a limit they never do.
pub proof fn losses_break_the_circuit(state: RiskView, n: nat)
    requires
        !state.circuit_breaker,
        state.consecutive_losses == 0,
        n <= u32::MAX,
    ensures
        after_losses(state, n).consecutive_losses == n,
        after_losses(state, n).circuit_breaker <==> 0 < state.limits.max_consecutive_losses <= n,
        after_losses(state, n).limits == state.limits,
        after_losses(state, n).killed == state.killed,
        after_losses(state, n).total_pnl == state.total_pnl,
        after_losses(state, n).peak_pnl == state.peak_pnl,
    decreases n,
{
    if n > 0 {
        losses_break_the_circuit(state, (n - 1) as nat);
    }
}

/// A new day starts with nothing gained or lost and the breaker off. The kill switch, the limits,
/// the open orders and the order rate carry over.
pub proof fn new_day_starts_even(state: RiskView)
    ensures
        ({
            let after = state.renewed();
            &&& after.total_pnl == 0 && after.peak_pnl == 0 && after.consecutive_losses == 0
            &&& !after.circuit_breaker
            &&& after.killed == state.killed && after.limits == state.limits
            &&& after.open_order_count == state.open_order_count
            &&& after.order_timestamps == state.order_timestamps
            &&& after.current_spread == state.current_spread
        }),
{
}

/// An amount with the sign of its side.
pub open spec fn signed(side: Side, qty: Qty) -> int {
    if side == Side::Buy {
        qty.0 as int
    } else {
        -qty.0
    }
}

/// The position that an order leads to is as large as the sum of both, each with the sign of its
/// side.
pub proof fn orders_add_to_positions(position: PositionView, side: Side, qty: Qty)
    ensures
        ({
            let sum = signed(position.side, position.qty) + signed(side, qty);
            let size = resulting_qty(position, side, qty);
            size >= 0 && (size == sum || size == -sum)
        }),
{
}

/// Of the orders recorded, those less than a second old count for the rate, each as often as it
/// was recorded and in the order in which it was.
pub proof fn rate_counts_the_last_second(timestamps: Seq<u64>, ts: u64, now: u64)
    ensures
        recent(Seq::empty(), now).len() == 0,
        recent(timestamps.push(ts), now) == (if now < ts + 1_000_000_000 {
            recent(timestamps, now).push(ts)
        } else {
            recent(timestamps, now)
        }),
{
    let p = |t: u64| now - t < SECOND_NS;
    reveal_with_fuel(Seq::filter, 2);
    assert(timestamps.push(ts).drop_last() =~= timestamps);
    assert(recent(Seq::empty(), now) =~= Seq::empty());
}

/// An order is refused exactly where the kill switch or the breaker is on, the spread is over
/// its limit, the order is too large, the position that it leads to is too large or worth too
/// much, too many orders are open or were placed within the last second, or too much was lost.
/// Only the last of these changes more than the record of the last second: it turns the kill
/// switch on. An accepted order is recorded.
pub proof fn refusals_are_exact(
    state: RiskView,
    side: Side,
    qty: Qty,
    price: Price,
    position: Option<PositionView>,
    now: u64,
)
    requires
        state.checkable(side, qty, price, position, now),
        position is Some ==> position->Some_0.qty.0 + qty.0 <= i64::MAX,
    ensures
        ({
            let (refusal, after) = state.checked(side, qty, price, position, now);
            let limits = state.limits;
            let held = if position is Some {
                signed(position->Some_0.side, position->Some_0.qty) + signed(side, qty)
            } else {
                0
            };
            let size = if held >= 0 {
                held
            } else {
                -held
            };
            let halted = state.killed || state.circuit_breaker;
            let unfit = (limits.max_spread > 0 && state.current_spread > limits.max_spread)
                || qty.0 > limits.max_order_qty;
            let exposed = position is Some && (size > limits.max_position_qty || size * price.0
                > limits.max_notional || size * price.0 > limits.max_total_notional);
            let crowded = state.open_order_count >= limits.max_open_orders;
            let hurried = recent(state.order_timestamps, now).len()
                >= limits.max_orders_per_second;
            let lost = state.total_pnl < limits.max_loss;
            let early = halted || unfit || exposed || crowded;
            &&& refusal is Some <==> early || hurried || lost
            &&& early ==> after == state
            &&& !early && (hurried || lost) ==> after.order_timestamps == recent(
                state.order_timestamps,
                now,
            )
            &&& refusal is None ==> after.order_timestamps == recent(
                state.order_timestamps,
                now,
            ).push(now)
            &&& after.killed <==> state.killed || (!early && !hurried && lost)
            &&& (refusal matches Some(Refusal::KillSwitch(_))) <==> state.killed || (!early
                && !hurried && lost)
            &&& after.limits == limits && after.open_order_count == state.open_order_count
            &&& after.total_pnl == state.total_pnl && after.peak_pnl == state.peak_pnl
            &&& after.circuit_breaker == state.circuit_breaker
            &&& after.consecutive_losses == state.consecutive_losses
            &&& after.current_spread == state.current_spread
        }),
{
    if position is Some {
        let p = position->Some_0;
        let n = resulting_qty(p, side, qty);
        assert(0 <= n <= i64::MAX);
        assert(notional_of(n as u64, price) == n * price.0);
    }
}

/// Closing an order undoes opening one, opening counts it, and closing where none is open changes
/// nothing.
pub proof fn closing_undoes_opening(state: RiskView)
    requires
        state.open_order_count < usize::MAX,
    ensures
        state.with_opened().open_order_count == state.open_order_count + 1,
        state.with_opened().with_one_closed() == state,
        state.open_order_count == 0 ==> state.with_one_closed() == state,
{
}

} // verus!
