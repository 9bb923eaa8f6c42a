//! Inventory of the market maker.
use vstd::prelude::*;

use crate::num;
use crate::types::Side;

verus! {

/// The contents of an [`InventoryManager`].
#[verifier::ext_equal]
pub struct InventoryView {
    pub position: i64,
    pub max_inventory: i64,
    pub gamma: i64,
}

impl InventoryView {
    /// The position after a fill, before it is kept from going below zero.
    pub open spec fn raw(self, side: Side, qty: u64) -> int {
        match side {
            Side::Buy => self.position + qty as i64,
            Side::Sell => self.position - qty as i64,
        }
    }

    /// The inventory after a fill.
    pub open spec fn filled(self, side: Side, qty: u64) -> InventoryView {
        InventoryView { position: num::max(self.raw(side, qty), 0) as i64, ..self }
    }

    /// The position as a fraction of the maximum, in ten-thousandths.
    pub open spec fn ratio(self) -> int {
        num::trunc_div(self.position * 10000, self.max_inventory as int)
    }

    /// The risk-weighted position as a fraction of the maximum, in ten-thousandths.
    pub open spec fn weight(self) -> int {
        num::trunc_div(self.ratio() * self.gamma, 10000)
    }

    /// The quote skew: `gamma * (position / max_inventory) * half_spread`.
    pub open spec fn skew(self, half_spread: i64) -> int {
        if self.max_inventory == 0 {
            0
        } else {
            num::trunc_div(self.weight() * half_spread, 10000)
        }
    }

    /// Whether the products of the skew stay within 64 bits.
    pub open spec fn skew_fits(self, half_spread: i64) -> bool {
        self.max_inventory != 0 ==> {
            &&& num::fits_i64(self.position * 10000)
            &&& num::fits_i64(self.ratio() * self.gamma)
            &&& num::fits_i64(self.weight() * half_spread)
        }
    }
}

/// Inventory manager for Avellaneda-Stoikov market making.
///
/// Tracks the position and computes a quote skew that sheds inventory. On spot the position
/// never goes below zero.
pub struct InventoryManager {
    position_qty: i64,
    max_inventory: i64,
    gamma: i64,
}

impl View for InventoryManager {
    type V = InventoryView;

    closed spec fn view(&self) -> InventoryView {
        InventoryView {
            position: self.position_qty,
            max_inventory: self.max_inventory,
            gamma: self.gamma,
        }
    }
}

impl InventoryManager {
    /// An empty inventory. The risk aversion `gamma` is in ten-thousandths.
    pub fn new(max_inventory: i64, gamma: i64) -> (r: Self)
        ensures
            r@ == (InventoryView { position: 0, max_inventory, gamma }),
    {
        InventoryManager { position_qty: 0, max_inventory, gamma }
    }

    /// Updates the position after a fill; it does not go below zero.
    pub fn on_fill(&mut self, side: Side, qty: u64)
        requires
            num::fits_i64(old(self)@.raw(side, qty)),
        ensures
            final(self)@ == old(self)@.filled(side, qty),
    {
        match side {
            Side::Buy => {
                self.position_qty = self.position_qty + qty as i64;
            },
            Side::Sell => {
                self.position_qty = self.position_qty - qty as i64;
            },
        }
        if self.position_qty < 0 {
            self.position_qty = 0;
        }
    }

    /// Whether the position stays within 64 bits after a fill.
    pub fn is_fill_in_range(&self, side: Side, qty: u64) -> (r: bool)
        ensures
            r == num::fits_i64(self@.raw(side, qty)),
    {
        let change: i64 = qty as i64;
        match side {
            Side::Buy => num::in_i64(self.position_qty as i128 + change as i128),
            Side::Sell => num::in_i64(self.position_qty as i128 - change as i128),
        }
    }

    /// The quote skew in pipettes: `gamma * (position / max_inventory) * half_spread`, each
    /// step rounded toward zero.
    pub fn compute_skew(&self, half_spread: i64) -> (r: i64)
        requires
            self@.skew_fits(half_spread),
        ensures
            r == self@.skew(half_spread),
    {
        if self.max_inventory == 0 {
            return 0;
        }
        proof {
            assert(self.position_qty * 10000 != i64::MIN);
            num::lemma_div_fits(self.position_qty * 10000, self.max_inventory as int);
            num::lemma_div_fits(self@.ratio() * self.gamma, 10000);
            num::lemma_div_fits(self@.weight() * half_spread, 10000);
        }
        let inv_ratio: i64 = num::div_trunc(self.position_qty * 10000, self.max_inventory);
        let weight: i64 = num::div_trunc(inv_ratio * self.gamma, 10000);
        num::div_trunc(weight * half_spread, 10000)
    }

    /// Whether the products of the skew stay within 64 bits.
    pub fn is_skew_in_range(&self, half_spread: i64) -> (r: bool)
        ensures
            r == self@.skew_fits(half_spread),
    {
        if self.max_inventory == 0 {
            return true;
        }
        let scaled: i128 = self.position_qty as i128 * 10000;
        if !num::in_i64(scaled) {
            return false;
        }
        proof {
            assert(scaled != i64::MIN);
            num::lemma_div_fits(scaled as int, self.max_inventory as int);
            num::lemma_product_fits(self@.ratio(), self.gamma as int);
        }
        let inv_ratio: i64 = num::div_trunc(scaled as i64, self.max_inventory);
        let weighted: i128 = inv_ratio as i128 * self.gamma as i128;
        if !num::in_i64(weighted) {
            return false;
        }
        proof {
            num::lemma_div_fits(weighted as int, 10000);
            num::lemma_product_fits(self@.weight(), half_spread as int);
        }
        let weight: i64 = num::div_trunc(weighted as i64, 10000);
        num::in_i64(weight as i128 * half_spread as i128)
    }

    /// Whether there is anything to sell.
    pub fn can_sell(&self) -> (r: bool)
        ensures
            r == (self@.position > 0),
    {
        self.position_qty > 0
    }

    /// How much of a desired quantity can be sold.
    pub fn sellable_qty(&self, desired: u64) -> (r: u64)
        ensures
            r == num::min(desired as int, num::max(self@.position as int, 0)),
    {
        if self.position_qty <= 0 {
            return 0;
        }
        if desired < self.position_qty as u64 {
            desired
        } else {
            self.position_qty as u64
        }
    }

    /// Whether the inventory has reached its maximum.
    pub fn at_max(&self) -> (r: bool)
        ensures
            r == (self@.position >= self@.max_inventory),
    {
        self.position_qty >= self.max_inventory
    }

    /// The position.
    pub fn position(&self) -> (r: i64)
        ensures
            r == self@.position,
    {
        self.position_qty
    }

    /// Sets the position; a negative one counts as zero.
    pub fn set_position(&mut self, qty: i64)
        ensures
            final(self)@ == (InventoryView {
                position: num::max(qty as int, 0) as i64,
                ..old(self)@
            }),
    {
        self.position_qty = if qty > 0 {
            qty
        } else {
            0
        };
    }
}

/// Fills keep the position from going below zero: on spot nothing is sold short.
pub proof fn position_never_negative(inventory: InventoryView, side: Side, qty: u64)
    requires
        num::fits_i64(inventory.raw(side, qty)),
    ensures
        inventory.filled(side, qty).position >= 0,
{
}

/// A flat inventory is not skewed, and a long one is skewed toward selling, for a sensible risk
/// aversion and spread.
pub proof fn skew_follows_position(inventory: InventoryView, half_spread: i64)
    requires
        inventory.position >= 0,
        inventory.max_inventory > 0,
        inventory.gamma >= 0,
        half_spread >= 0,
    ensures
        inventory.skew(half_spread) >= 0,
        inventory.position == 0 ==> inventory.skew(half_spread) == 0,
{
    let ratio = inventory.ratio();
    let g = inventory.gamma as int;
    let h = half_spread as int;
    assert(ratio >= 0);
    assert(ratio * g >= 0 && (ratio == 0 ==> ratio * g == 0)) by (nonlinear_arith)
        requires
            ratio >= 0,
            g >= 0,
    ;
    let weight = inventory.weight();
    assert(weight >= 0);
    assert(weight * h >= 0 && (weight == 0 ==> weight * h == 0)) by (nonlinear_arith)
        requires
            weight >= 0,
            h >= 0,
    ;
}

/// Buying adds to the position and selling takes from it, down to nothing at the lowest, and a
/// fill changes nothing else.
pub proof fn fills_move_the_position(inventory: InventoryView, qty: u64)
    requires
        inventory.position >= 0,
        inventory.position + qty <= i64::MAX,
    ensures
        ({
            let bought = inventory.filled(Side::Buy, qty);
            let sold = inventory.filled(Side::Sell, qty);
            &&& bought.position == inventory.position + qty
            &&& qty <= inventory.position ==> sold.position == inventory.position - qty
            &&& qty >= inventory.position ==> sold.position == 0
            &&& bought.filled(Side::Sell, qty) == inventory
            &&& bought.max_inventory == inventory.max_inventory && bought.gamma == inventory.gamma
            &&& sold.max_inventory == inventory.max_inventory && sold.gamma == inventory.gamma
        }),
{
}

/// A larger position never has a smaller skew, and neither has a wider spread.
pub proof fn skew_grows_with_position(
    less: InventoryView,
    more: InventoryView,
    narrow: i64,
    wide: i64,
)
    requires
        0 <= less.position <= more.position,
        less.max_inventory == more.max_inventory,
        less.max_inventory > 0,
        less.gamma == more.gamma,
        less.gamma >= 0,
        0 <= narrow <= wide,
    ensures
        0 <= less.skew(narrow) <= more.skew(wide),
{
    let top = less.max_inventory as int;
    let g = less.gamma as int;
    vstd::arithmetic::div_mod::lemma_div_is_ordered(
        less.position * 10000,
        more.position * 10000,
        top,
    );
    let r = less.ratio();
    let q = more.ratio();
    assert(0 <= r <= q) by {
        vstd::arithmetic::div_mod::lemma_div_pos_is_pos(less.position * 10000, top);
    }
    assert(0 <= r * g <= q * g) by (nonlinear_arith)
        requires
            0 <= r <= q,
            g >= 0,
    ;
    let v = less.weight();
    let w = more.weight();
    assert(0 <= v <= w);
    assert(0 <= v * narrow <= w * wide) by (nonlinear_arith)
        requires
            0 <= v <= w,
            0 <= narrow <= wide,
    ;
}

/// The skew is `gamma / 10000` of the half-spread times the position as a part of the maximum,
/// never more than that, and less only by what rounding down three times takes off: less than
/// one pipette, one ten-thousandth of the half-spread, and one hundred-millionth of `gamma`
/// half-spreads.
pub proof fn skew_is_in_proportion(inventory: InventoryView, half_spread: i64)
    requires
        inventory.position >= 0,
        inventory.max_inventory > 0,
        inventory.gamma >= 0,
        half_spread >= 0,
    ensures
        ({
            let s = inventory.skew(half_spread);
            let q = inventory.position as int;
            let top = inventory.max_inventory as int;
            let g = inventory.gamma as int;
            let h = half_spread as int;
            &&& s * top * 10000 <= g * q * h
            &&& g * q * h * 10000 < (s + 1) * top * 100_000_000 + top * h * 10000 + top * g * h
                + top
        }),
{
    let s = inventory.skew(half_spread);
    let q = inventory.position as int;
    let top = inventory.max_inventory as int;
    let g = inventory.gamma as int;
    let h = half_spread as int;
    let r = inventory.ratio();
    let w = inventory.weight();
    vstd::arithmetic::div_mod::lemma_div_pos_is_pos(q * 10000, top);
    assert(r * g >= 0) by (nonlinear_arith)
        requires
            r >= 0,
            g >= 0,
    ;
    assert(w * h >= 0) by (nonlinear_arith)
        requires
            w >= 0,
            h >= 0,
    ;
    vstd::arithmetic::div_mod::lemma_fundamental_div_mod(q * 10000, top);
    vstd::arithmetic::div_mod::lemma_mod_bound(q * 10000, top);
    assert(top * r <= q * 10000 < top * r + top);
    assert(10000 * w <= r * g < 10000 * w + 10000);
    assert(10000 * s <= w * h < 10000 * s + 10000);
    assert(s * top * 10000 <= g * q * h) by (nonlinear_arith)
        requires
            top > 0,
            g >= 0,
            h >= 0,
            top * r <= q * 10000,
            10000 * w <= r * g,
            10000 * s <= w * h,
    {
        assert(10000 * s * top <= w * h * top);
        assert(10000 * (w * h * top) <= (r * g) * (h * top)) by {
            assert((10000 * w) * (h * top) <= (r * g) * (h * top));
        }
        assert((top * r) * (g * h) <= (q * 10000) * (g * h));
        assert((r * g) * (h * top) == (top * r) * (g * h));
        assert((q * 10000) * (g * h) == 10000 * (g * q * h));
    }
    assert(g * q * h * 10000 < (s + 1) * top * 100_000_000 + top * h * 10000 + top * g * h + top)
        by (nonlinear_arith)
        requires
            top > 0,
            g >= 0,
            h >= 0,
            q * 10000 < top * r + top,
            r * g < 10000 * w + 10000,
            w * h < 10000 * s + 10000,
    {
        assert((q * 10000) * (g * h) <= (top * r + top) * (g * h));
        assert((top * r + top) * (g * h) == (r * g) * (top * h) + top * (g * h));
        assert((r * g) * (top * h) <= (10000 * w + 10000) * (top * h));
        assert((10000 * w + 10000) * (top * h) == 10000 * ((w * h) * top) + 10000 * (top * h));
        assert((w * h) * top <= (10000 * s + 10000) * top);
        assert((10000 * s + 10000) * top == 10000 * ((s + 1) * top));
        assert((q * 10000) * (g * h) == g * q * h * 10000);
        assert(top * (g * h) == top * g * h);
    }
}

} // verus!
