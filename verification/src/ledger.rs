//! Position and profit and loss of a node, from its fills.
use vstd::prelude::*;

use crate::num;
use crate::risk::{RiskEngine, RiskView};
use crate::types::{Position, PositionView, Price, Qty, Side, Symbol, SymbolView};

verus! {

/// A fill of one of the node's own orders.
#[derive(Debug, Clone, Copy, PartialEq, Eq, Structural)]
pub struct LedgerFill {
    pub side: Side,
    pub price: Price,
    pub qty: Qty,
    pub fee: i64,
    /// What the part of the position that the fill closes is worth at its average entry price.
    pub entry_value: i64,
}

/// Position, its cost, and profit and loss. Prices and amounts are in pipettes; a positive
/// quantity is long, a negative one short.
#[derive(Debug, Clone, Copy, PartialEq, Eq, Structural)]
pub struct Ledger {
    pub position_qty: i64,
    /// What the position cost; negative for a short one.
    pub cost_basis: i64,
    pub realized_pnl: i64,
    /// Profit and loss when the position was last closed.
    pub last_flat_pnl: i64,
}

/// A quantity as a signed 64-bit integer.
pub open spec fn lots(qty: Qty) -> int {
    (qty.0 as i64) as int
}

/// What a quantity is worth at a price.
pub open spec fn worth(price: Price, n: int, divisor: i64) -> int {
    num::trunc_div(price.0 * n, divisor as int)
}

/// Amounts after a fill, before it is known that they fit.
#[verifier::ext_equal]
pub struct Amounts {
    pub position: int,
    pub cost: int,
    pub pnl: int,
}

impl Ledger {
    /// Whether a fill on a side closes some of the position.
    pub open spec fn closes(self, side: Side) -> bool {
        match side {
            Side::Buy => self.position_qty < 0,
            Side::Sell => self.position_qty > 0,
        }
    }

    /// How much of the position a fill closes.
    pub open spec fn closed_part(self, side: Side, qty: Qty) -> int {
        if !self.closes(side) {
            0
        } else {
            num::min(lots(qty), num::abs(self.position_qty as int))
        }
    }

    /// The amounts after a fill. What it closes is settled against its entry value; what it
    /// opens adds to the cost, or is all of the cost where the position changes side.
    pub open spec fn amounts(self, fill: LedgerFill, divisor: i64) -> Amounts {
        let n = lots(fill.qty);
        let closed = self.closed_part(fill.side, fill.qty);
        let opened = n - closed;
        match (fill.side, self.closes(fill.side)) {
            (Side::Buy, false) => Amounts {
                position: self.position_qty + n,
                cost: self.cost_basis + worth(fill.price, n, divisor),
                pnl: self.realized_pnl - fill.fee,
            },
            (Side::Buy, true) => Amounts {
                position: self.position_qty + n,
                cost: if opened > 0 {
                    worth(fill.price, opened, divisor)
                } else {
                    self.cost_basis + worth(fill.price, closed, divisor)
                },
                pnl: self.realized_pnl + (fill.entry_value - worth(fill.price, closed, divisor))
                    - fill.fee,
            },
            (Side::Sell, false) => Amounts {
                position: self.position_qty - n,
                cost: self.cost_basis - worth(fill.price, n, divisor),
                pnl: self.realized_pnl - fill.fee,
            },
            (Side::Sell, true) => Amounts {
                position: self.position_qty - n,
                cost: if opened > 0 {
                    -worth(fill.price, opened, divisor)
                } else {
                    self.cost_basis - fill.entry_value
                },
                pnl: self.realized_pnl + (worth(fill.price, closed, divisor) - fill.entry_value)
                    - fill.fee,
            },
        }
    }

    /// The ledger after a fill.
    pub open spec fn filled(self, fill: LedgerFill, divisor: i64) -> Ledger {
        let a = self.amounts(fill, divisor);
        Ledger {
            position_qty: a.position as i64,
            cost_basis: a.cost as i64,
            realized_pnl: a.pnl as i64,
            last_flat_pnl: if a.position == 0 {
                a.pnl as i64
            } else {
                self.last_flat_pnl
            },
        }
    }

    /// What the round-trip that a fill ends made, where it ends one.
    pub open spec fn round_trip(self, fill: LedgerFill, divisor: i64) -> Option<int> {
        let a = self.amounts(fill, divisor);
        if a.position == 0 {
            Some(a.pnl - self.last_flat_pnl)
        } else {
            None
        }
    }

    /// Whether all amounts that come up in accounting for a fill fit into 64 bits.
    pub open spec fn fill_fits(self, fill: LedgerFill, divisor: i64) -> bool {
        let n = lots(fill.qty);
        let closed = self.closed_part(fill.side, fill.qty);
        let opened = n - closed;
        let a = self.amounts(fill, divisor);
        &&& divisor > 0
        &&& num::fits_i64(fill.price.0 * n)
        &&& num::fits_i64(a.position)
        &&& num::fits_i64(a.cost)
        &&& num::fits_i64(a.pnl + fill.fee)
        &&& num::fits_i64(a.pnl)
        &&& self.closes(fill.side) ==> {
            &&& self.position_qty > i64::MIN
            &&& num::fits_i64(fill.price.0 * closed)
            &&& fill.side == Side::Buy ==> {
                &&& num::fits_i64(fill.entry_value - worth(fill.price, closed, divisor))
                &&& num::fits_i64(self.cost_basis + worth(fill.price, closed, divisor))
            }
            &&& fill.side == Side::Sell ==> {
                &&& num::fits_i64(worth(fill.price, closed, divisor) - fill.entry_value)
                &&& num::fits_i64(self.cost_basis - fill.entry_value)
            }
            &&& opened > 0 ==> num::fits_i64(fill.price.0 * opened)
        }
        &&& a.position == 0 ==> num::fits_i64(a.pnl - self.last_flat_pnl)
    }

    /// The position as the risk engine sees it; none when flat.
    pub open spec fn position_view(self, symbol: SymbolView) -> Option<PositionView> {
        if self.position_qty == 0 {
            None
        } else {
            Some(
                PositionView {
                    symbol,
                    side: if self.position_qty > 0 {
                        Side::Buy
                    } else {
                        Side::Sell
                    },
                    qty: Qty(num::abs(self.position_qty as int) as u64),
                    avg_entry: Price(
                        num::trunc_div(self.cost_basis as int, self.position_qty as int) as i64,
                    ),
                    unrealized_pnl: 0,
                    realized_pnl: self.realized_pnl,
                },
            )
        }
    }

    /// Whether the average entry price fits into 64 bits.
    pub open spec fn position_fits(self) -> bool {
        !(self.cost_basis == i64::MIN && self.position_qty == -1)
    }

    /// Whether the average entry price fits into 64 bits.
    pub fn is_position_in_range(&self) -> (r: bool)
        ensures
            r == self.position_fits(),
    {
        !(self.cost_basis == i64::MIN && self.position_qty == -1)
    }

    /// A flat ledger.
    pub fn new() -> (r: Self)
        ensures
            r == (Ledger { position_qty: 0, cost_basis: 0, realized_pnl: 0, last_flat_pnl: 0 }),
    {
        Ledger { position_qty: 0, cost_basis: 0, realized_pnl: 0, last_flat_pnl: 0 }
    }

    /// How much of the position a fill closes.
    pub fn closing_qty(&self, side: Side, qty: Qty) -> (r: i64)
        requires
            self.position_qty > i64::MIN,
        ensures
            r == self.closed_part(side, qty),
    {
        let n: i64 = qty.0 as i64;
        let size: i64 = match side {
            Side::Buy => if self.position_qty < 0 {
                -self.position_qty
            } else {
                return 0;
            },
            Side::Sell => if self.position_qty > 0 {
                self.position_qty
            } else {
                return 0;
            },
        };
        if n < size {
            n
        } else {
            size
        }
    }

    /// Accounts for a fill. Returns what the fill is worth, and what the round-trip made that it
    /// ends, where it ends one.
    pub fn on_fill(&mut self, fill: &LedgerFill, divisor: i64) -> (r: (i64, Option<i64>))
        requires
            old(self).fill_fits(*fill, divisor),
        ensures
            *final(self) == old(self).filled(*fill, divisor),
            r.0 == worth(fill.price, lots(fill.qty), divisor),
            match (r.1, old(self).round_trip(*fill, divisor)) {
                (Some(made), Some(amount)) => made == amount,
                (None, None) => true,
                _ => false,
            },
    {
        let n: i64 = fill.qty.0 as i64;
        let value: i64 = num::div_trunc(fill.price.0 * n, divisor);
        match fill.side {
            Side::Buy => if self.position_qty >= 0 {
                self.position_qty = self.position_qty + n;
                self.cost_basis = self.cost_basis + value;
            } else {
                let closed: i64 = self.closing_qty(fill.side, fill.qty);
                let exit_value: i64 = num::div_trunc(fill.price.0 * closed, divisor);
                self.realized_pnl = self.realized_pnl + (fill.entry_value - exit_value);
                self.position_qty = self.position_qty + n;
                self.cost_basis = self.cost_basis + exit_value;
                let opened: i64 = n - closed;
                if opened > 0 {
                    self.cost_basis = num::div_trunc(fill.price.0 * opened, divisor);
                }
            },
            Side::Sell => if self.position_qty <= 0 {
                self.position_qty = self.position_qty - n;
                self.cost_basis = self.cost_basis - value;
            } else {
                let closed: i64 = self.closing_qty(fill.side, fill.qty);
                let exit_value: i64 = num::div_trunc(fill.price.0 * closed, divisor);
                self.realized_pnl = self.realized_pnl + (exit_value - fill.entry_value);
                self.position_qty = self.position_qty - n;
                self.cost_basis = self.cost_basis - fill.entry_value;
                let opened: i64 = n - closed;
                if opened > 0 {
                    self.cost_basis = -num::div_trunc(fill.price.0 * opened, divisor);
                }
            },
        }
        self.realized_pnl = self.realized_pnl - fill.fee;
        if self.position_qty == 0 {
            let made: i64 = self.realized_pnl - self.last_flat_pnl;
            self.last_flat_pnl = self.realized_pnl;
            (value, Some(made))
        } else {
            (value, None)
        }
    }

    /// Whether all amounts that come up in accounting for a fill fit into 64 bits.
    pub fn is_fill_in_range(&self, fill: &LedgerFill, divisor: i64) -> (r: bool)
        ensures
            r == self.fill_fits(*fill, divisor),
    {
        if divisor <= 0 {
            return false;
        }
        let n: i64 = fill.qty.0 as i64;
        let closes = match fill.side {
            Side::Buy => self.position_qty < 0,
            Side::Sell => self.position_qty > 0,
        };
        if closes && self.position_qty == i64::MIN {
            return false;
        }
        let closed: i64 = if closes {
            self.closing_qty(fill.side, fill.qty)
        } else {
            0
        };
        let opened: i64 = n - closed;
        let price: i64 = fill.price.0;
        let (value, exit_value, open_value) = match (
            value_in_range(price, n, divisor),
            value_in_range(price, closed, divisor),
            value_in_range(price, opened, divisor),
        ) {
            (Some(v), Some(e), Some(o)) => (v, e, o),
            (Some(v), Some(e), None) => {
                if closes && opened > 0 {
                    return false;
                }
                (v, e, 0i64)
            },
            _ => {
                assert(!closes ==> closed == 0 && opened == n && fill.price.0 * closed == 0)
                    by (nonlinear_arith)
                    requires
                        !closes ==> closed == 0,
                        opened == n - closed,
                ;
                return false;
            },
        };
        let position: i128 = match fill.side {
            Side::Buy => self.position_qty as i128 + n as i128,
            Side::Sell => self.position_qty as i128 - n as i128,
        };
        let (cost, gain): (i128, i128) = if !closes {
            match fill.side {
                Side::Buy => (self.cost_basis as i128 + value as i128, 0),
                Side::Sell => (self.cost_basis as i128 - value as i128, 0),
            }
        } else {
            let reduced: i128 = match fill.side {
                Side::Buy => self.cost_basis as i128 + exit_value as i128,
                Side::Sell => self.cost_basis as i128 - fill.entry_value as i128,
            };
            let gain: i128 = match fill.side {
                Side::Buy => fill.entry_value as i128 - exit_value as i128,
                Side::Sell => exit_value as i128 - fill.entry_value as i128,
            };
            if !num::in_i64(reduced) || !num::in_i64(gain) {
                return false;
            }
            let cost: i128 = if opened > 0 {
                match fill.side {
                    Side::Buy => open_value as i128,
                    Side::Sell => -(open_value as i128),
                }
            } else {
                reduced
            };
            (cost, gain)
        };
        let before_fee: i128 = self.realized_pnl as i128 + gain;
        let pnl: i128 = before_fee - fill.fee as i128;
        if !num::in_i64(position) || !num::in_i64(cost) || !num::in_i64(before_fee)
            || !num::in_i64(pnl) {
            return false;
        }
        position != 0 || num::in_i64(pnl - self.last_flat_pnl as i128)
    }

    /// Accounts for a fill here and in the risk engine: it gets the change of profit and loss,
    /// and whether a round-trip was won. Returns what the fill is worth.
    pub fn settle(&mut self, risk: &mut RiskEngine, fill: &LedgerFill, divisor: i64) -> (r: i64)
        requires
            old(self).settle_fits(old(risk)@, *fill, divisor),
        ensures
            *final(self) == old(self).filled(*fill, divisor),
            final(risk)@ == old(self).settled(old(risk)@, *fill, divisor),
            r == worth(fill.price, lots(fill.qty), divisor),
    {
        let (value, made) = self.on_fill(fill, divisor);
        let delta: i64 = self.realized_pnl - risk.total_pnl();
        risk.update_pnl(delta);
        if let Some(amount) = made {
            if amount >= 0 {
                risk.record_win();
            } else {
                risk.record_loss();
            }
        }
        value
    }

    /// The risk engine after a fill was settled.
    pub open spec fn settled(self, risk: RiskView, fill: LedgerFill, divisor: i64) -> RiskView {
        let a = self.amounts(fill, divisor);
        let updated = risk.with_pnl((a.pnl - risk.total_pnl) as i64);
        match self.round_trip(fill, divisor) {
            None => updated,
            Some(made) => if made >= 0 {
                RiskView { consecutive_losses: 0, ..updated }
            } else {
                updated.with_loss()
            },
        }
    }

    /// Whether all amounts that come up in settling a fill fit.
    pub open spec fn settle_fits(self, risk: RiskView, fill: LedgerFill, divisor: i64) -> bool {
        let a = self.amounts(fill, divisor);
        &&& self.fill_fits(fill, divisor)
        &&& num::fits_i64(a.pnl - risk.total_pnl)
        &&& risk.pnl_fits((a.pnl - risk.total_pnl) as i64)
        &&& match self.round_trip(fill, divisor) {
            Some(made) => made < 0 ==> risk.consecutive_losses < u32::MAX,
            None => true,
        }
    }

    /// Whether all amounts that come up in settling a fill fit.
    pub fn is_settle_in_range(&self, risk: &RiskEngine, fill: &LedgerFill, divisor: i64) -> (r:
        bool)
        ensures
            r == self.settle_fits(risk@, *fill, divisor),
    {
        if !self.is_fill_in_range(fill, divisor) {
            return false;
        }
        let mut after: Ledger = *self;
        let (_, made) = after.on_fill(fill, divisor);
        let delta: i128 = after.realized_pnl as i128 - risk.total_pnl() as i128;
        if !num::in_i64(delta) || !risk.is_pnl_in_range(delta as i64) {
            return false;
        }
        match made {
            Some(amount) => amount >= 0 || risk.consecutive_losses() < u32::MAX,
            None => true,
        }
    }

    /// The position as the risk engine sees it; none when flat.
    pub fn position(&self, symbol: &Symbol) -> (r: Option<Position>)
        requires
            self.position_fits(),
        ensures
            match (r, self.position_view(symbol@)) {
                (Some(p), Some(v)) => p@ == v,
                (None, None) => true,
                _ => false,
            },
    {
        if self.position_qty == 0 {
            return None;
        }
        let (side, size) = if self.position_qty > 0 {
            (Side::Buy, self.position_qty as u64)
        } else {
            (Side::Sell, (-(self.position_qty as i128)) as u64)
        };
        Some(
            Position {
                symbol: symbol.clone(),
                side,
                qty: Qty(size),
                avg_entry: Price(num::div_trunc(self.cost_basis, self.position_qty)),
                unrealized_pnl: 0,
                realized_pnl: self.realized_pnl,
            },
        )
    }

    /// What the position is worth at a price, whichever side it is on; the product of size and
    /// price is held to 64 bits.
    pub open spec fn exposed(self, mid: i64, divisor: i64) -> int {
        num::trunc_div(
            num::clamp(
                (num::abs(self.position_qty as int) as u64) as i64 * mid,
                i64::MIN as int,
                i64::MAX as int,
            ),
            divisor as int,
        )
    }

    /// What the position is worth at a price, whichever side it is on; the product of size and
    /// price is held to 64 bits.
    pub fn exposure(&self, mid: i64, divisor: i64) -> (r: i64)
        requires
            divisor > 0,
        ensures
            r == self.exposed(mid, divisor),
    {
        let size: i64 = if self.position_qty == i64::MIN {
            i64::MIN
        } else if self.position_qty < 0 {
            -self.position_qty
        } else {
            self.position_qty
        };
        assert(0x8000_0000_0000_0000u64 as i64 == i64::MIN) by (bit_vector);
        proof {
            num::lemma_product_fits(size as int, mid as int);
        }
        let product: i128 = size as i128 * mid as i128;
        let held: i64 = if product < i64::MIN as i128 {
            i64::MIN
        } else if product > i64::MAX as i128 {
            i64::MAX
        } else {
            product as i64
        };
        num::div_trunc(held, divisor)
    }
}

/// What a quantity is worth at a price, where the product of the two fits into 64 bits.
fn value_in_range(price: i64, n: i64, divisor: i64) -> (r: Option<i64>)
    requires
        divisor > 0,
    ensures
        match r {
            Some(v) => num::fits_i64(price * n) && v == worth(Price(price), n as int, divisor),
            None => !num::fits_i64(price * n),
        },
{
    proof {
        num::lemma_product_fits(price as int, n as int);
    }
    let product: i128 = price as i128 * n as i128;
    if num::in_i64(product) {
        Some(num::div_trunc(product as i64, divisor))
    } else {
        None
    }
}

/// After a fill was settled the risk engine's profit and loss is the ledger's.
pub proof fn risk_follows_ledger(ledger: Ledger, risk: RiskView, fill: LedgerFill, divisor: i64)
    requires
        ledger.settle_fits(risk, fill, divisor),
    ensures
        ledger.settled(risk, fill, divisor).total_pnl == ledger.filled(
            fill,
            divisor,
        ).realized_pnl,
{
}

/// Fills move the position by what was bought or sold, whatever they close.
pub proof fn position_is_the_sum_of_fills(ledger: Ledger, fill: LedgerFill, divisor: i64)
    requires
        ledger.fill_fits(fill, divisor),
    ensures
        ledger.filled(fill, divisor).position_qty == ledger.position_qty + (match fill.side {
            Side::Buy => lots(fill.qty),
            Side::Sell => -lots(fill.qty),
        }),
{
}

/// A power of ten.
pub open spec fn ten_to(n: nat) -> int
    decreases n,
{
    if n == 0 {
        1
    } else {
        10 * ten_to((n - 1) as nat)
    }
}

/// The number of smallest units in one unit of a quantity with so many decimals.
pub fn qty_divisor(decimals: u8) -> (r: i64)
    requires
        decimals <= 18,
    ensures
        r == ten_to(decimals as nat),
        r > 0,
{
    proof {
        reveal_with_fuel(ten_to, 20);
    }
    match decimals {
        0 => 1,
        1 => 10,
        2 => 100,
        3 => 1_000,
        4 => 10_000,
        5 => 100_000,
        6 => 1_000_000,
        7 => 10_000_000,
        8 => 100_000_000,
        9 => 1_000_000_000,
        10 => 10_000_000_000,
        11 => 100_000_000_000,
        12 => 1_000_000_000_000,
        13 => 10_000_000_000_000,
        14 => 100_000_000_000_000,
        15 => 1_000_000_000_000_000,
        16 => 10_000_000_000_000_000,
        17 => 100_000_000_000_000_000,
        _ => 1_000_000_000_000_000_000,
    }
}

/// Nanoseconds in a day.
pub const DAY_NS: u64 = 86_400_000_000_000;

/// The day that a time in nanoseconds falls on, where it is later than another.
pub open spec fn day_after(now: u64, last_day: u64) -> Option<u64> {
    if now / DAY_NS > last_day {
        Some(now / DAY_NS)
    } else {
        None
    }
}

/// A new day has come once 24 hours of 3600 seconds have passed for each day up to the last one
/// and that one too. The day is the number of whole days that have passed.
pub proof fn days_have_24_hours(now: u64, last_day: u64)
    ensures
        match day_after(now, last_day) {
            Some(day) => {
                &&& day > last_day
                &&& day * 86_400_000_000_000 <= now
                &&& now < (day + 1) * 86_400_000_000_000
            },
            None => now < (last_day + 1) * 86_400_000_000_000,
        },
{
}

/// The day that a time in nanoseconds falls on, where it is later than another.
pub fn next_day(now: u64, last_day: u64) -> (r: Option<u64>)
    ensures
        r == day_after(now, last_day),
{
    let day: u64 = now / DAY_NS;
    if day > last_day {
        Some(day)
    } else {
        None
    }
}

/// What a quantity is worth is price times quantity in whole units, cut toward zero.
pub proof fn worth_is_price_times_quantity(price: Price, n: int, divisor: i64)
    requires
        divisor > 0,
    ensures
        num::abs(worth(price, n, divisor) * divisor) <= num::abs(price.0 * n) < num::abs(
            worth(price, n, divisor) * divisor,
        ) + divisor,
        price.0 * n >= 0 ==> worth(price, n, divisor) * divisor >= 0,
        price.0 * n <= 0 ==> worth(price, n, divisor) * divisor <= 0,
{
    num::division_cuts_toward_zero(price.0 * n, divisor as int);
}

/// Opening a position from nothing and closing it by one fill of the same size makes what the sale
/// brought less what the purchase cost, whichever came first, less both fees. Nothing is left of
/// the position.
pub proof fn round_trips_earn_the_difference(
    ledger: Ledger,
    open: LedgerFill,
    close: LedgerFill,
    divisor: i64,
)
    requires
        ledger.position_qty == 0,
        ledger.cost_basis == 0,
        ledger.last_flat_pnl == ledger.realized_pnl,
        open.side != close.side,
        open.qty == close.qty,
        0 < open.qty.0 <= i64::MAX,
        ledger.fill_fits(open, divisor),
        ledger.filled(open, divisor).fill_fits(close, divisor),
        close.entry_value == worth(open.price, open.qty.0 as int, divisor),
    ensures
        ({
            let held = ledger.filled(open, divisor);
            let flat = held.filled(close, divisor);
            let (bought, sold) = if open.side == Side::Buy {
                (open, close)
            } else {
                (close, open)
            };
            let gain = worth(sold.price, sold.qty.0 as int, divisor) - worth(
                bought.price,
                bought.qty.0 as int,
                divisor,
            );
            &&& held.position_qty == (if open.side == Side::Buy {
                open.qty.0 as int
            } else {
                -open.qty.0
            })
            &&& held.realized_pnl == ledger.realized_pnl - open.fee
            &&& held.last_flat_pnl == ledger.last_flat_pnl
            &&& ledger.round_trip(open, divisor) is None
            &&& flat.position_qty == 0
            &&& flat.realized_pnl == ledger.realized_pnl + gain - open.fee - close.fee
            &&& flat.last_flat_pnl == flat.realized_pnl
            &&& held.round_trip(close, divisor) == Some(gain - open.fee - close.fee)
            &&& open.side == Side::Buy ==> flat.cost_basis == 0
        }),
{
}

/// A fill on the side of the position, or from nothing, earns nothing and costs its fee; what it
/// is worth adds to the cost of a long position and takes from that of a short one.
pub proof fn opening_fills_add_to_cost(ledger: Ledger, fill: LedgerFill, divisor: i64)
    requires
        ledger.fill_fits(fill, divisor),
        fill.qty.0 <= i64::MAX,
        fill.side == Side::Buy ==> ledger.position_qty >= 0,
        fill.side == Side::Sell ==> ledger.position_qty <= 0,
    ensures
        ({
            let after = ledger.filled(fill, divisor);
            let value = worth(fill.price, fill.qty.0 as int, divisor);
            &&& after.realized_pnl == ledger.realized_pnl - fill.fee
            &&& fill.side == Side::Buy ==> after.cost_basis == ledger.cost_basis + value
            &&& fill.side == Side::Sell ==> after.cost_basis == ledger.cost_basis - value
        }),
{
}

/// A fill against the position closes as much of it as it can. That earns the difference between
/// what it is worth at the fill's price and what it cost, less the fee. A fill that is larger than
/// the position leaves one on the other side, which cost what its own size is worth.
pub proof fn closing_fills_realize_profit(ledger: Ledger, fill: LedgerFill, divisor: i64)
    requires
        ledger.fill_fits(fill, divisor),
        fill.qty.0 <= i64::MAX,
        fill.side == Side::Buy ==> ledger.position_qty < 0,
        fill.side == Side::Sell ==> ledger.position_qty > 0,
    ensures
        ({
            let after = ledger.filled(fill, divisor);
            let size = num::abs(ledger.position_qty as int);
            let n = fill.qty.0 as int;
            let closed = if n <= size {
                n
            } else {
                size
            };
            let value = worth(fill.price, closed, divisor);
            &&& ledger.closed_part(fill.side, fill.qty) == closed
            &&& fill.side == Side::Sell ==> after.realized_pnl == ledger.realized_pnl + value
                - fill.entry_value - fill.fee
            &&& fill.side == Side::Buy ==> after.realized_pnl == ledger.realized_pnl
                + fill.entry_value - value - fill.fee
            &&& n > size && fill.side == Side::Sell ==> after.cost_basis == -worth(
                fill.price,
                n - size,
                divisor,
            )
            &&& n > size && fill.side == Side::Buy ==> after.cost_basis == worth(
                fill.price,
                n - size,
                divisor,
            )
            &&& n <= size && fill.side == Side::Sell ==> after.cost_basis == ledger.cost_basis
                - fill.entry_value
            &&& n <= size && fill.side == Side::Buy ==> after.cost_basis == ledger.cost_basis
                + value
            &&& after.last_flat_pnl == (if n == size {
                after.realized_pnl
            } else {
                ledger.last_flat_pnl
            })
            &&& ledger.round_trip(fill, divisor) == (if n == size {
                Some(after.realized_pnl - ledger.last_flat_pnl)
            } else {
                None
            })
        }),
{
}

/// Settling a fill tells the risk engine the new profit and loss. A round-trip that lost counts as
/// one more loss in a row, and one that did not ends the row; a fill that leaves a position does
/// neither.
pub proof fn settling_counts_losses(
    ledger: Ledger,
    risk: RiskView,
    fill: LedgerFill,
    divisor: i64,
)
    requires
        ledger.settle_fits(risk, fill, divisor),
    ensures
        ({
            let after = ledger.filled(fill, divisor);
            let told = ledger.settled(risk, fill, divisor);
            let made = after.realized_pnl - ledger.last_flat_pnl;
            &&& told.total_pnl == after.realized_pnl
            &&& told.peak_pnl >= told.total_pnl && told.peak_pnl >= risk.peak_pnl
            &&& told.consecutive_losses == (if after.position_qty != 0 {
                risk.consecutive_losses as int
            } else if made < 0 {
                risk.consecutive_losses + 1
            } else {
                0
            })
            &&& risk.circuit_breaker ==> told.circuit_breaker
            &&& after.position_qty == 0 && made < 0 && 0 < risk.limits.max_consecutive_losses
                <= risk.consecutive_losses + 1 ==> told.circuit_breaker
            &&& told.killed == risk.killed && told.limits == risk.limits
            &&& told.open_order_count == risk.open_order_count
        }),
{
}

/// The risk engine sees no position when there is none, a purchase where it is long and a sale
/// where it is short, of its size and at its cost for each unit.
pub proof fn positions_are_shown(ledger: Ledger, symbol: SymbolView)
    requires
        ledger.position_fits(),
    ensures
        match ledger.position_view(symbol) {
            None => ledger.position_qty == 0,
            Some(p) => {
                &&& p.side == Side::Buy <==> ledger.position_qty > 0
                &&& p.side == Side::Sell <==> ledger.position_qty < 0
                &&& p.qty.0 == ledger.position_qty || p.qty.0 == -ledger.position_qty
                &&& p.symbol == symbol
                &&& p.realized_pnl == ledger.realized_pnl && p.unrealized_pnl == 0
                &&& num::abs(p.avg_entry.0 * ledger.position_qty) <= num::abs(
                    ledger.cost_basis as int,
                ) < num::abs(p.avg_entry.0 * ledger.position_qty) + p.qty.0
            },
        },
{
    if ledger.position_qty != 0 {
        num::division_cuts_toward_zero(ledger.cost_basis as int, ledger.position_qty as int);
        num::lemma_div_fits(ledger.cost_basis as int, ledger.position_qty as int);
    }
}

/// A long position and a short one of the same size are worth the same: size times price in whole
/// units, cut toward zero.
pub proof fn exposure_is_the_size_at_the_price(ledger: Ledger, mid: i64, divisor: i64)
    requires
        divisor > 0,
        ledger.position_qty > i64::MIN,
        num::fits_i64(num::abs(ledger.position_qty as int) * mid),
    ensures
        ({
            let value = ledger.exposed(mid, divisor);
            let product = ledger.position_qty * mid;
            &&& num::abs(value * divisor) <= num::abs(product) < num::abs(value * divisor)
                + divisor
            &&& mid >= 0 ==> value * divisor >= 0
            &&& mid <= 0 ==> value * divisor <= 0
        }),
{
    let q = ledger.position_qty as int;
    let n = num::abs(q);
    let m = mid as int;
    assert(num::abs(n * m) == num::abs(q * m)) by {
        assert((-q) * m == -(q * m)) by (nonlinear_arith);
    }
    assert(m >= 0 ==> n * m >= 0) by (nonlinear_arith)
        requires
            n >= 0,
    ;
    assert(m <= 0 ==> n * m <= 0) by (nonlinear_arith)
        requires
            n >= 0,
    ;
    num::division_cuts_toward_zero(n * m, divisor as int);
}

/// One more decimal makes ten times as many units, and decimals add up.
pub proof fn decimals_add_up(a: nat, b: nat)
    ensures
        ten_to(0) == 1,
        ten_to(1) == 10,
        ten_to(a + b) == ten_to(a) * ten_to(b),
    decreases b,
{
    reveal_with_fuel(ten_to, 2);
    if b == 0 {
        assert(ten_to(a) * 1 == ten_to(a));
    } else {
        decimals_add_up(a, (b - 1) as nat);
        assert(a + b - 1 == a + (b - 1) as nat);
        let x = ten_to(a);
        let y = ten_to((b - 1) as nat);
        assert(10 * (x * y) == x * (10 * y)) by (nonlinear_arith);
    }
}

} // verus!
