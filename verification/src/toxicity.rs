//! Toxicity of the order flow and short-term volatility.
use std::collections::VecDeque;

use vstd::prelude::*;

use crate::num;
use crate::types::Side;

verus! {

/// The contents of a [`ToxicityTracker`].
#[verifier::ext_equal]
pub struct ToxicityView {
    pub window: Seq<(Side, u64)>,
    pub max_window: nat,
    pub buy_volume: u64,
    pub sell_volume: u64,
    pub volatility: i64,
    pub last_price: i64,
    pub vol_alpha: i64,
    pub threshold: i64,
}

/// The volume of one side in a window.
pub open spec fn volume(window: Seq<(Side, u64)>, side: Side) -> nat
    decreases window.len(),
{
    if window.len() == 0 {
        0
    } else {
        volume(window.drop_last(), side) + if window.last().0 == side {
            window.last().1 as nat
        } else {
            0
        }
    }
}

/// The difference of two volumes as signed integers.
pub open spec fn volume_gap(buy: u64, sell: u64) -> int {
    (buy as i64) - (sell as i64)
}

/// The price change as a signed 64-bit magnitude.
pub open spec fn price_move(from: i64, to: i64) -> i64 {
    (num::abs(to - from) as u64) as i64
}

impl ToxicityView {
    /// The moving average of price changes, updated by a new price.
    pub open spec fn moved(self, price: i64) -> int {
        if self.last_price > 0 {
            num::trunc_div(
                price_move(self.last_price, price) * self.vol_alpha + self.volatility * (10000
                    - self.vol_alpha),
                10000,
            )
        } else {
            self.volatility as int
        }
    }

    /// Whether the amounts of a new trade stay within 64 bits.
    pub open spec fn trade_fits(self, side: Side, qty: u64, price: i64) -> bool {
        &&& self.last_price > 0 ==> {
            let delta = price_move(self.last_price, price);
            &&& num::fits_i64(price - self.last_price)
            &&& num::fits_i64(delta * self.vol_alpha)
            &&& num::fits_i64(10000 - self.vol_alpha)
            &&& num::fits_i64(self.volatility * (10000 - self.vol_alpha))
            &&& num::fits_i64(
                delta * self.vol_alpha + self.volatility * (10000 - self.vol_alpha),
            )
        }
        &&& match side {
            Side::Buy => self.buy_volume + qty <= u64::MAX,
            Side::Sell => self.sell_volume + qty <= u64::MAX,
        }
    }

    /// The state with the oldest trade out of the window.
    pub open spec fn without_oldest(self) -> ToxicityView {
        let (side, qty) = self.window[0];
        ToxicityView {
            window: self.window.skip(1),
            buy_volume: if side == Side::Buy {
                num::max(self.buy_volume - qty, 0) as u64
            } else {
                self.buy_volume
            },
            sell_volume: if side == Side::Sell {
                num::max(self.sell_volume - qty, 0) as u64
            } else {
                self.sell_volume
            },
            ..self
        }
    }

    /// The state with the window cut to its size.
    pub open spec fn evicted(self) -> ToxicityView
        decreases self.window.len(),
    {
        if self.window.len() > self.max_window {
            self.without_oldest().evicted()
        } else {
            self
        }
    }

    /// The state with a trade at the end of the window.
    pub open spec fn entered(self, side: Side, qty: u64, price: i64) -> ToxicityView {
        ToxicityView {
            window: self.window.push((side, qty)),
            buy_volume: if side == Side::Buy {
                (self.buy_volume + qty) as u64
            } else {
                self.buy_volume
            },
            sell_volume: if side == Side::Sell {
                (self.sell_volume + qty) as u64
            } else {
                self.sell_volume
            },
            volatility: self.moved(price) as i64,
            last_price: price,
            ..self
        }
    }

    /// The state after a trade.
    pub open spec fn traded(self, side: Side, qty: u64, price: i64) -> ToxicityView {
        self.entered(side, qty, price).evicted()
    }

    /// Whether the amounts of the volume imbalance stay within 64 bits.
    pub open spec fn vpin_fits(self) -> bool {
        let total = self.buy_volume + self.sell_volume;
        &&& total <= u64::MAX
        &&& total > 0 ==> {
            &&& num::fits_i64(volume_gap(self.buy_volume, self.sell_volume))
            &&& num::abs(volume_gap(self.buy_volume, self.sell_volume)) * 10000 <= u64::MAX
        }
    }

    /// The imbalance of buy and sell volume in ten-thousandths of the total.
    pub open spec fn vpin(self) -> int {
        let total = self.buy_volume + self.sell_volume;
        if total == 0 {
            0
        } else {
            num::abs(volume_gap(self.buy_volume, self.sell_volume)) * 10000 / total
        }
    }

    /// Whether the imbalance is above its threshold.
    pub open spec fn toxic(self) -> bool {
        self.vpin() > self.threshold
    }

    /// Whether the amounts of the spread multiplier stay within 64 bits.
    pub open spec fn multiplier_fits(self) -> bool {
        self.vpin_fits() && num::fits_i64(self.volatility * 50)
    }

    /// How much to widen the spread, in ten-thousandths.
    pub open spec fn multiplier(self) -> int {
        num::min(10000 + self.vpin() + num::min(self.volatility * 50, 10000), 30000)
    }

    /// Whether the volumes are those of the window, the window has its size, the moving average
    /// is of magnitudes, and its weight is a fraction.
    pub open spec fn wf(self) -> bool {
        &&& self.buy_volume == volume(self.window, Side::Buy)
        &&& self.sell_volume == volume(self.window, Side::Sell)
        &&& self.window.len() <= self.max_window
        &&& self.volatility >= 0
        &&& 0 <= self.vol_alpha <= 10000
    }
}

/// Tracks the imbalance between buy-initiated and sell-initiated volume over a rolling window of
/// trades, and the volatility as a moving average of price changes.
pub struct ToxicityTracker {
    window: VecDeque<(Side, u64)>,
    max_window: usize,
    buy_volume: u64,
    sell_volume: u64,
    volatility_ema: i64,
    last_price: i64,
    vol_alpha: i64,
    threshold: i64,
}

impl View for ToxicityTracker {
    type V = ToxicityView;

    closed spec fn view(&self) -> ToxicityView {
        ToxicityView {
            window: self.window@,
            max_window: self.max_window as nat,
            buy_volume: self.buy_volume,
            sell_volume: self.sell_volume,
            volatility: self.volatility_ema,
            last_price: self.last_price,
            vol_alpha: self.vol_alpha,
            threshold: self.threshold,
        }
    }
}

/// The magnitude of a price change, as a signed integer.
fn magnitude(d: i64) -> (r: i64)
    ensures
        r == (num::abs(d as int) as u64) as i64,
{
    let m: u64 = if d >= 0 {
        d as u64
    } else {
        (-(d as i128)) as u64
    };
    m as i64
}

/// Whether the amounts of the imbalance of two volumes stay within 64 bits.
fn is_vpin_in_range(buy: u64, sell: u64) -> (r: bool)
    ensures
        forall|t: ToxicityView|
            t.buy_volume == buy && t.sell_volume == sell ==> r == #[trigger] t.vpin_fits(),
{
    let total: u128 = buy as u128 + sell as u128;
    if total > u64::MAX as u128 {
        return false;
    }
    if total > 0 {
        let gap: i128 = (buy as i64) as i128 - (sell as i64) as i128;
        let size: i128 = if gap < 0 {
            -gap
        } else {
            gap
        };
        if !num::in_i64(gap) || size * 10000 > u64::MAX as i128 {
            return false;
        }
    }
    true
}

impl ToxicityTracker {
    /// A tracker without trades. The weight `vol_alpha` of a new price change and the
    /// `threshold` of the imbalance are in ten-thousandths.
    pub fn new(max_window: usize, vol_alpha: i64, threshold: i64) -> (r: Self)
        ensures
            r@ == untraded(max_window as nat, vol_alpha, threshold),
    {
        ToxicityTracker {
            window: VecDeque::with_capacity(max_window),
            max_window,
            buy_volume: 0,
            sell_volume: 0,
            volatility_ema: 0,
            last_price: 0,
            vol_alpha,
            threshold,
        }
    }

    /// Records a trade.
    pub fn on_trade(&mut self, side: Side, qty: u64, price: i64)
        requires
            old(self)@.trade_fits(side, qty, price),
        ensures
            final(self)@ == old(self)@.traded(side, qty, price),
    {
        if self.last_price > 0 {
            let delta: i64 = magnitude(price - self.last_price);
            let weighted: i64 = delta * self.vol_alpha + self.volatility_ema * (10000
                - self.vol_alpha);
            proof {
                num::lemma_div_fits(weighted as int, 10000);
            }
            self.volatility_ema = num::div_trunc(weighted, 10000);
        }
        self.last_price = price;
        match side {
            Side::Buy => {
                self.buy_volume = self.buy_volume + qty;
            },
            Side::Sell => {
                self.sell_volume = self.sell_volume + qty;
            },
        }
        self.window.push_back((side, qty));
        assert(self@ == old(self)@.entered(side, qty, price));
        while self.window.len() > self.max_window
            invariant
                self@.evicted() == old(self)@.traded(side, qty, price),
            decreases self.window@.len(),
        {
            let ghost before = self@;
            if let Some((old_side, old_qty)) = self.window.pop_front() {
                match old_side {
                    Side::Buy => {
                        self.buy_volume = if self.buy_volume > old_qty {
                            self.buy_volume - old_qty
                        } else {
                            0
                        };
                    },
                    Side::Sell => {
                        self.sell_volume = if self.sell_volume > old_qty {
                            self.sell_volume - old_qty
                        } else {
                            0
                        };
                    },
                }
                assert(self@ =~= before.without_oldest());
            }
        }
    }

    /// Whether the amounts of a new trade stay within 64 bits.
    pub fn is_trade_in_range(&self, side: Side, qty: u64, price: i64) -> (r: bool)
        ensures
            r == self@.trade_fits(side, qty, price),
    {
        if self.last_price > 0 {
            let change: i128 = price as i128 - self.last_price as i128;
            let rest: i128 = 10000 - self.vol_alpha as i128;
            if !num::in_i64(change) || !num::in_i64(rest) {
                return false;
            }
            let delta: i64 = magnitude(change as i64);
            proof {
                num::lemma_product_fits(delta as int, self.vol_alpha as int);
                num::lemma_product_fits(self.volatility_ema as int, rest as int);
            }
            let fresh: i128 = delta as i128 * self.vol_alpha as i128;
            let kept: i128 = self.volatility_ema as i128 * rest;
            if !num::in_i64(fresh) || !num::in_i64(kept) || !num::in_i64(fresh + kept) {
                return false;
            }
        }
        match side {
            Side::Buy => self.buy_volume as u128 + qty as u128 <= u64::MAX as u128,
            Side::Sell => self.sell_volume as u128 + qty as u128 <= u64::MAX as u128,
        }
    }

    /// The volumes after a trade.
    fn volumes_after(&self, side: Side, qty: u64, price: i64) -> (r: (u64, u64))
        requires
            self@.trade_fits(side, qty, price),
        ensures
            r.0 == self@.traded(side, qty, price).buy_volume,
            r.1 == self@.traded(side, qty, price).sell_volume,
    {
        let ghost entered = self@.entered(side, qty, price);
        let ghost window = entered.window;
        let mut buy: u64 = self.buy_volume;
        let mut sell: u64 = self.sell_volume;
        match side {
            Side::Buy => {
                buy = buy + qty;
            },
            Side::Sell => {
                sell = sell + qty;
            },
        }
        let size: usize = self.window.len();
        let mut gone: usize = 0;
        assert(window.skip(0) =~= window);
        while gone <= size && size - gone >= self.max_window
            invariant
                size == self.window@.len(),
                window == self.window@.push((side, qty)),
                entered == self@.entered(side, qty, price),
                window == entered.window,
                gone <= size + 1,
                (ToxicityView {
                    window: window.skip(gone as int),
                    buy_volume: buy,
                    sell_volume: sell,
                    ..entered
                }).evicted() == entered.evicted(),
            decreases size + 1 - gone,
        {
            let ghost before = ToxicityView {
                window: window.skip(gone as int),
                buy_volume: buy,
                sell_volume: sell,
                ..entered
            };
            let (old_side, old_qty): (Side, u64) = if gone < size {
                self.window[gone]
            } else {
                (side, qty)
            };
            assert(before.window[0] == (old_side, old_qty));
            match old_side {
                Side::Buy => {
                    buy = if buy > old_qty {
                        buy - old_qty
                    } else {
                        0
                    };
                },
                Side::Sell => {
                    sell = if sell > old_qty {
                        sell - old_qty
                    } else {
                        0
                    };
                },
            }
            let ghost after = ToxicityView {
                window: window.skip(gone + 1),
                buy_volume: buy,
                sell_volume: sell,
                ..entered
            };
            proof {
                assert(before.window.skip(1) =~= window.skip(gone + 1));
                assert(after =~= before.without_oldest());
            }
            if gone == size {
                assert(after.window.len() == 0);
                assert(after.evicted() == after);
                return (buy, sell);
            }
            gone += 1;
        }
        (buy, sell)
    }

    /// Whether a trade can be recorded and the imbalance computed after it, all within 64 bits.
    pub fn is_trade_safe(&self, side: Side, qty: u64, price: i64) -> (r: bool)
        ensures
            r == (self@.trade_fits(side, qty, price) && self@.traded(
                side,
                qty,
                price,
            ).vpin_fits()),
    {
        if !self.is_trade_in_range(side, qty, price) {
            return false;
        }
        let (buy, sell) = self.volumes_after(side, qty, price);
        is_vpin_in_range(buy, sell)
    }

    /// Whether the amounts of the spread multiplier stay within 64 bits.
    pub fn is_multiplier_in_range(&self) -> (r: bool)
        ensures
            r == self@.multiplier_fits(),
    {
        is_vpin_in_range(self.buy_volume, self.sell_volume) && num::in_i64(
            self.volatility_ema as i128 * 50,
        )
    }

    /// The imbalance of buy and sell volume in ten-thousandths of the total.
    pub fn vpin(&self) -> (r: i64)
        requires
            self@.vpin_fits(),
        ensures
            r == self@.vpin(),
            0 <= r <= 10000,
    {
        let total: u64 = self.buy_volume + self.sell_volume;
        if total == 0 {
            return 0;
        }
        let gap: i64 = self.buy_volume as i64 - self.sell_volume as i64;
        let diff: u64 = if gap >= 0 {
            gap as u64
        } else {
            (-(gap as i128)) as u64
        };
        proof {
            lemma_vpin_range(self@);
        }
        (diff * 10000 / total) as i64
    }

    /// Whether the flow is toxic.
    pub fn is_toxic(&self) -> (r: bool)
        requires
            self@.vpin_fits(),
        ensures
            r == self@.toxic(),
    {
        self.vpin() > self.threshold
    }

    /// How much to widen the spread for toxicity and volatility, in ten-thousandths.
    pub fn spread_multiplier(&self) -> (r: i64)
        requires
            self@.multiplier_fits(),
        ensures
            r == self@.multiplier(),
    {
        let tox: i64 = self.vpin();
        let scaled: i64 = self.volatility_ema * 50;
        let vol: i64 = if scaled < 10000 {
            scaled
        } else {
            10000
        };
        let sum: i64 = 10000 + tox + vol;
        if sum < 30000 {
            sum
        } else {
            30000
        }
    }

    /// The volatility estimate in pipettes.
    pub fn volatility(&self) -> (r: i64)
        ensures
            r == self@.volatility,
    {
        self.volatility_ema
    }
}

/// The imbalance is a fraction of the total.
proof fn lemma_vpin_range(t: ToxicityView)
    requires
        t.vpin_fits(),
    ensures
        0 <= t.vpin() <= 10000,
{
    let buy = t.buy_volume;
    let sell = t.sell_volume;
    let total = buy + sell;
    if total > 0 {
        let diff = num::abs(volume_gap(buy, sell));
        if buy <= i64::MAX && sell <= i64::MAX {
            assert(diff <= total);
            assert(0 <= diff * 10000 / total <= 10000) by (nonlinear_arith)
                requires
                    0 <= diff <= total,
                    total > 0,
            ;
        } else {
            assert(0 <= diff * 10000 / total <= 10000) by (nonlinear_arith)
                requires
                    diff >= 0,
                    diff * 10000 <= 0xffff_ffff_ffff_ffff,
                    total > 0x7fff_ffff_ffff_ffff,
            ;
        }
    }
}

/// The spread is widened at most threefold and never narrowed.
pub proof fn multiplier_range(t: ToxicityView)
    requires
        t.vpin_fits(),
        t.volatility >= 0,
    ensures
        10000 <= t.multiplier() <= 30000,
{
    lemma_vpin_range(t);
}

/// Taking the first trade out of a window takes its volume out.
proof fn lemma_volume_skip(window: Seq<(Side, u64)>, side: Side)
    requires
        window.len() > 0,
    ensures
        volume(window, side) == volume(window.skip(1), side) + if window[0].0 == side {
            window[0].1 as nat
        } else {
            0
        },
    decreases window.len(),
{
    if window.len() == 1 {
        reveal_with_fuel(volume, 2);
        assert(window.skip(1) =~= Seq::empty());
        assert(window.drop_last() =~= Seq::empty());
    } else {
        lemma_volume_skip(window.drop_last(), side);
        assert(window.drop_last().skip(1) =~= window.skip(1).drop_last());
        assert(window.skip(1).last() == window.last());
    }
}

/// Cutting a window to size keeps the volumes equal to the sums over it.
proof fn lemma_evicted(t: ToxicityView)
    requires
        t.buy_volume == volume(t.window, Side::Buy),
        t.sell_volume == volume(t.window, Side::Sell),
    ensures
        t.evicted().buy_volume == volume(t.evicted().window, Side::Buy),
        t.evicted().sell_volume == volume(t.evicted().window, Side::Sell),
        t.evicted().window.len() <= t.max_window,
        t.evicted().volatility == t.volatility,
        t.evicted().vol_alpha == t.vol_alpha,
        t.evicted().max_window == t.max_window,
        t.evicted().threshold == t.threshold,
    decreases t.window.len(),
{
    if t.window.len() > t.max_window {
        lemma_volume_skip(t.window, Side::Buy);
        lemma_volume_skip(t.window, Side::Sell);
        lemma_evicted(t.without_oldest());
    }
}

/// A trade keeps the volumes equal to the sums over the window, and the window to its size.
pub proof fn trades_keep_window(t: ToxicityView, side: Side, qty: u64, price: i64)
    requires
        t.wf(),
        t.trade_fits(side, qty, price),
        num::abs(price - t.last_price) <= i64::MAX,
    ensures
        t.traded(side, qty, price).wf(),
{
    let e = t.entered(side, qty, price);
    assert(t.window.push((side, qty)).drop_last() =~= t.window);
    if t.last_price > 0 {
        let d = price_move(t.last_price, price) as int;
        let a = t.vol_alpha as int;
        let v = t.volatility as int;
        assert(d * a >= 0 && v * (10000 - a) >= 0) by (nonlinear_arith)
            requires
                d >= 0,
                v >= 0,
                0 <= a <= 10000,
        ;
        num::lemma_div_fits(d * a + v * (10000 - a), 10000);
    }
    lemma_evicted(e);
}

/// The state after trades: for each its side, quantity and price.
pub open spec fn after_trades(t: ToxicityView, trades: Seq<(Side, u64, i64)>) -> ToxicityView
    decreases trades.len(),
{
    if trades.len() == 0 {
        t
    } else {
        let (side, qty, price) = trades.last();
        after_trades(t, trades.drop_last()).traded(side, qty, price)
    }
}

/// Whether the amounts of trades, one after the other, stay within 64 bits.
pub open spec fn trades_fit(t: ToxicityView, trades: Seq<(Side, u64, i64)>) -> bool
    decreases trades.len(),
{
    trades.len() > 0 ==> {
        let (side, qty, price) = trades.last();
        &&& trades_fit(t, trades.drop_last())
        &&& after_trades(t, trades.drop_last()).trade_fits(side, qty, price)
    }
}

/// The last `n` trades, or all where there are fewer: for each its side and quantity.
pub open spec fn last_trades(trades: Seq<(Side, u64, i64)>, n: nat) -> Seq<(Side, u64)> {
    let kept = num::min(trades.len() as int, n as int);
    trades.skip(trades.len() - kept).map_values(|t: (Side, u64, i64)| (t.0, t.1))
}

/// A tracker without trades.
pub open spec fn untraded(max_window: nat, vol_alpha: i64, threshold: i64) -> ToxicityView {
    ToxicityView {
        window: Seq::empty(),
        max_window,
        buy_volume: 0,
        sell_volume: 0,
        volatility: 0,
        last_price: 0,
        vol_alpha,
        threshold,
    }
}

/// After trades the window holds the last of them, as many as it has room for, and the volumes
/// are theirs. Where the volume fits a signed integer, the imbalance is the difference of the
/// bought and the sold volume in ten-thousandths of both, and the flow is toxic where that is
/// above the threshold.
pub proof fn window_holds_last_trades(
    max_window: nat,
    vol_alpha: i64,
    threshold: i64,
    trades: Seq<(Side, u64, i64)>,
)
    requires
        trades_fit(untraded(max_window, vol_alpha, threshold), trades),
    ensures
        ({
            let t = after_trades(untraded(max_window, vol_alpha, threshold), trades);
            let kept = last_trades(trades, max_window);
            let bought = volume(kept, Side::Buy);
            let sold = volume(kept, Side::Sell);
            &&& t.window == kept
            &&& t.buy_volume == bought
            &&& t.sell_volume == sold
            &&& t.max_window == max_window
            &&& t.threshold == threshold
            &&& bought + sold <= i64::MAX ==> t.vpin() == if bought + sold == 0 {
                0
            } else {
                num::abs(bought - sold) * 10000 / (bought + sold) as int
            }
            &&& (bought + sold) * 10000 <= u64::MAX ==> t.vpin_fits() && 0 <= t.vpin() <= 10000
            &&& t.toxic() <==> t.vpin() > threshold
        }),
    decreases trades.len(),
{
    let start = untraded(max_window, vol_alpha, threshold);
    let t = after_trades(start, trades);
    let kept = last_trades(trades, max_window);
    if trades.len() == 0 {
        assert(kept =~= Seq::empty());
    } else {
        let front = trades.drop_last();
        let (side, qty, price) = trades.last();
        window_holds_last_trades(max_window, vol_alpha, threshold, front);
        let before = after_trades(start, front);
        let entered = before.entered(side, qty, price);
        assert(entered.window.drop_last() =~= before.window);
        lemma_evicted(entered);
        reveal_with_fuel(ToxicityView::evicted, 2);
        if entered.window.len() > max_window {
            assert(t.window =~= entered.window.skip(1));
        }
        assert(t.window =~= kept);
    }
    if (t.buy_volume + t.sell_volume) * 10000 <= u64::MAX {
        lemma_vpin_range(t);
    }
}

/// Trades that are older than the window is long change neither the window nor the imbalance.
pub proof fn older_trades_have_no_effect(
    max_window: nat,
    vol_alpha: i64,
    threshold: i64,
    older: Seq<(Side, u64, i64)>,
    recent: Seq<(Side, u64, i64)>,
)
    requires
        recent.len() >= max_window,
        trades_fit(untraded(max_window, vol_alpha, threshold), older + recent),
        trades_fit(untraded(max_window, vol_alpha, threshold), recent),
    ensures
        ({
            let start = untraded(max_window, vol_alpha, threshold);
            let long = after_trades(start, older + recent);
            let short = after_trades(start, recent);
            &&& long.window == short.window
            &&& long.vpin() == short.vpin()
            &&& long.toxic() == short.toxic()
        }),
{
    window_holds_last_trades(max_window, vol_alpha, threshold, older + recent);
    window_holds_last_trades(max_window, vol_alpha, threshold, recent);
    assert(last_trades(older + recent, max_window) =~= last_trades(recent, max_window));
}

/// Cutting the window to size changes only the window and the volumes.
proof fn lemma_evicted_rest(t: ToxicityView)
    ensures
        t.evicted().volatility == t.volatility,
        t.evicted().last_price == t.last_price,
        t.evicted().vol_alpha == t.vol_alpha,
        t.evicted().threshold == t.threshold,
        t.evicted().max_window == t.max_window,
    decreases t.window.len(),
{
    if t.window.len() > t.max_window {
        lemma_evicted_rest(t.without_oldest());
    }
}

/// The volatility is a moving average of price changes: the first price leaves it as it is, and
/// every other moves it from where it was toward the size of the change, by `vol_alpha`
/// ten-thousandths of the way, rounded down. A price that stays leaves it no larger.
pub proof fn volatility_averages_price_moves(t: ToxicityView, side: Side, qty: u64, price: i64)
    requires
        t.trade_fits(side, qty, price),
        t.volatility >= 0,
        0 <= t.vol_alpha <= 10000,
        num::abs(price - t.last_price) <= i64::MAX,
    ensures
        ({
            let after = t.traded(side, qty, price);
            let change = if price > t.last_price {
                price - t.last_price
            } else {
                t.last_price - price
            };
            let before = t.volatility as int;
            let moved = after.volatility as int;
            let way = (change - before) * t.vol_alpha;
            &&& after.last_price == price
            &&& t.last_price <= 0 ==> moved == before
            &&& t.last_price > 0 ==> way - 10000 < (moved - before) * 10000 <= way
            &&& t.last_price > 0 && change == 0 ==> moved <= before
            &&& after.vol_alpha == t.vol_alpha && after.threshold == t.threshold
        }),
{
    lemma_evicted_rest(t.entered(side, qty, price));
    if t.last_price > 0 {
        let d = price_move(t.last_price, price) as int;
        let a = t.vol_alpha as int;
        let v = t.volatility as int;
        assert(d * a >= 0 && v * (10000 - a) >= 0) by (nonlinear_arith)
            requires
                d >= 0,
                v >= 0,
                0 <= a <= 10000,
        ;
        num::lemma_div_fits(d * a + v * (10000 - a), 10000);
        assert((d - v) * a == d * a + v * (10000 - a) - v * 10000) by (nonlinear_arith);
        if d == 0 {
            assert(0 * a == 0);
            assert(v * (10000 - a) <= v * 10000) by (nonlinear_arith)
                requires
                    v >= 0,
                    a >= 0,
            ;
        }
    }
}

/// The spread is widened by the imbalance and by a half-hundredth for each pipette of
/// volatility, the latter to twice the spread at most: it is as it was where there is neither,
/// and grows with each.
pub proof fn spread_widens_with_risk(calm: ToxicityView, wild: ToxicityView)
    requires
        calm.vpin_fits(),
        wild.vpin_fits(),
        0 <= calm.volatility <= wild.volatility,
        calm.vpin() <= wild.vpin(),
    ensures
        calm.multiplier() <= wild.multiplier(),
        calm.vpin() == 0 && calm.volatility == 0 ==> calm.multiplier() == 10000,
        calm.volatility <= 200 ==> calm.multiplier() - 10000 == calm.vpin() + 50
            * calm.volatility,
        calm.volatility >= 200 ==> calm.multiplier() - 20000 == calm.vpin(),
{
    lemma_vpin_range(calm);
    lemma_vpin_range(wild);
}

/// One-sided flow is as toxic as can be, and balanced flow not at all; which side it is does not
/// matter.
pub proof fn toxicity_is_one_sidedness(t: ToxicityView, other: ToxicityView)
    requires
        t.buy_volume == other.sell_volume,
        t.sell_volume == other.buy_volume,
        t.buy_volume <= i64::MAX,
        t.sell_volume <= i64::MAX,
    ensures
        t.vpin() == other.vpin(),
        t.buy_volume == t.sell_volume ==> t.vpin() == 0,
        t.buy_volume > 0 && t.sell_volume == 0 ==> t.vpin() == 10000,
{
    let b = t.buy_volume as int;
    if b > 0 && t.sell_volume == 0 {
        assert(b * 10000 / b == 10000) by (nonlinear_arith)
            requires
                b > 0,
        ;
    }
    if b > 0 && b == t.sell_volume {
        assert(0int * 10000 / (b + b) == 0) by (nonlinear_arith)
            requires
                b > 0,
        ;
    }
}

/// A trade changes neither the length of the window nor when the flow counts as toxic.
pub proof fn trades_keep_limits(t: ToxicityView, side: Side, qty: u64, price: i64)
    ensures
        t.traded(side, qty, price).threshold == t.threshold,
        t.traded(side, qty, price).max_window == t.max_window,
        t.traded(side, qty, price).vol_alpha == t.vol_alpha,
{
    lemma_evicted_rest(t.entered(side, qty, price));
}

} // verus!
