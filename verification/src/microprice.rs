//! Fair value of a book.
use vstd::prelude::*;

use crate::num;
use crate::types::{Level, Price};

verus! {

/// The prices of a pair of levels, each weighted by the quantity of the other.
pub open spec fn weighed(bid: Level, ask: Level) -> int {
    ask.price.0 * bid.qty.0 + bid.price.0 * ask.qty.0
}

/// The quantity of a pair of levels.
pub open spec fn size(bid: Level, ask: Level) -> int {
    bid.qty.0 + ask.qty.0
}

/// The microprice of a best bid and a best ask:
/// `(ask * bid_qty + bid * ask_qty) / (bid_qty + ask_qty)`, rounded toward zero, or the midpoint
/// where there is no quantity.
pub open spec fn microprice(bid: Level, ask: Level) -> int {
    if size(bid, ask) == 0 {
        num::trunc_div(bid.price.0 + ask.price.0, 2)
    } else {
        num::trunc_div(weighed(bid, ask), size(bid, ask))
    }
}

/// The sum over the first `n` pairs of levels of their weighed prices, the `i`-th pair counted
/// `depth - i` times.
pub open spec fn weighed_sum(bids: Seq<Level>, asks: Seq<Level>, depth: int, n: int) -> int
    decreases n,
{
    if n <= 0 {
        0
    } else {
        weighed_sum(bids, asks, depth, n - 1) + weighed(bids[n - 1], asks[n - 1]) * (depth - (n
            - 1))
    }
}

/// The sum over the first `n` pairs of levels of their quantities, the `i`-th pair counted
/// `depth - i` times.
pub open spec fn size_sum(bids: Seq<Level>, asks: Seq<Level>, depth: int, n: int) -> int
    decreases n,
{
    if n <= 0 {
        0
    } else {
        size_sum(bids, asks, depth, n - 1) + size(bids[n - 1], asks[n - 1]) * (depth - (n - 1))
    }
}

/// How many pairs of levels are used.
pub open spec fn used(bids: Seq<Level>, asks: Seq<Level>, depth: int) -> int {
    num::min(num::min(depth, bids.len() as int), asks.len() as int)
}

/// The microprice over several pairs of levels, nearer pairs counting more: the `i`-th pair
/// counts `depth - i` times, however many pairs there are.
pub open spec fn weighted(bids: Seq<Level>, asks: Seq<Level>, depth: int) -> int {
    let d = used(bids, asks, depth);
    if bids.len() == 0 || asks.len() == 0 {
        0
    } else if d == 0 {
        microprice(bids[0], asks[0])
    } else if size_sum(bids, asks, depth, d) == 0 {
        num::trunc_div(bids[0].price.0 + asks[0].price.0, 2)
    } else {
        num::trunc_div(weighed_sum(bids, asks, depth, d), size_sum(bids, asks, depth, d))
    }
}

/// Whether the sums of the microprice over several pairs stay within 128 bits.
pub open spec fn weighted_fits(bids: Seq<Level>, asks: Seq<Level>, depth: int) -> bool {
    let d = used(bids, asks, depth);
    bids.len() > 0 && asks.len() > 0 ==> {
        &&& d == 0 ==> num::fits_i128(weighed(bids[0], asks[0]))
        &&& forall|n: int| 0 <= n < d ==> #[trigger] step_fits(bids, asks, depth, n)
    }
}

/// Whether the sums stay within 128 bits when the `n`-th pair is added.
pub open spec fn step_fits(bids: Seq<Level>, asks: Seq<Level>, depth: int, n: int) -> bool {
    &&& num::fits_i128(weighed(bids[n], asks[n]))
    &&& num::fits_i128(weighed(bids[n], asks[n]) * (depth - n))
    &&& num::fits_i128(weighed_sum(bids, asks, depth, n + 1))
    &&& num::fits_i128(size(bids[n], asks[n]) * (depth - n))
    &&& num::fits_i128(size_sum(bids, asks, depth, n + 1))
}

/// The quantity of the first `n` levels.
pub open spec fn quantity_of(levels: Seq<Level>, n: int) -> int
    decreases n,
{
    if n <= 0 {
        0
    } else {
        quantity_of(levels, n - 1) + levels[n - 1].qty.0
    }
}

/// The imbalance of bid and ask quantity, in ten-thousandths of the total.
pub open spec fn imbalance_of(bids: Seq<Level>, asks: Seq<Level>, depth: int) -> int {
    let d = used(bids, asks, depth);
    let bv = quantity_of(bids, d);
    let av = quantity_of(asks, d);
    if bv + av == 0 {
        0
    } else {
        num::trunc_div((bv - av) * 10000, bv + av)
    }
}

/// Whether the amounts of the imbalance stay within 128 bits.
pub open spec fn imbalance_fits(bids: Seq<Level>, asks: Seq<Level>, depth: int) -> bool {
    let d = used(bids, asks, depth);
    let bv = quantity_of(bids, d);
    let av = quantity_of(asks, d);
    num::fits_i128(bv + av) && num::fits_i128((bv - av) * 10000)
}

/// A price times a quantity fits into 128 bits.
proof fn lemma_value_fits(price: i64, qty: u64)
    ensures
        -0x7fff_ffff_ffff_ffff_8000_0000_0000_0000 <= price * qty
            <= 0x7fff_ffff_ffff_ffff_8000_0000_0000_0000,
{
    assert(-0x7fff_ffff_ffff_ffff_8000_0000_0000_0000 <= price * qty
        <= 0x7fff_ffff_ffff_ffff_8000_0000_0000_0000) by (nonlinear_arith)
        requires
            -0x8000_0000_0000_0000 <= price <= 0x7fff_ffff_ffff_ffff,
            0 <= qty <= 0xffff_ffff_ffff_ffff,
    ;
}

/// An average of prices lies between the lowest and the highest of them, also when rounded
/// toward zero.
proof fn lemma_average(total: int, count: int, low: int, high: int)
    requires
        count > 0,
        count * low <= total <= count * high,
    ensures
        low <= num::trunc_div(total, count) <= high,
{
    assert(low <= num::trunc_div(total, count) <= high) by (nonlinear_arith)
        requires
            count > 0,
            count * low <= total <= count * high,
    ;
}

/// The microprice lies between bid and ask.
pub proof fn microprice_between(bid: Level, ask: Level)
    requires
        bid.price.0 <= ask.price.0,
    ensures
        bid.price.0 <= microprice(bid, ask) <= ask.price.0,
{
    let b = bid.price.0 as int;
    let a = ask.price.0 as int;
    let bv = bid.qty.0 as int;
    let av = ask.qty.0 as int;
    if bv + av > 0 {
        assert((bv + av) * b <= a * bv + b * av <= (bv + av) * a) by (nonlinear_arith)
            requires
                b <= a,
                bv >= 0,
                av >= 0,
        ;
        lemma_average(a * bv + b * av, bv + av, b, a);
    } else {
        lemma_average(b + a, 2, b, a);
    }
}

/// The microprice of two levels lies within the range of 64 bits.
proof fn lemma_microprice_fits(bid: Level, ask: Level)
    ensures
        num::fits_i64(microprice(bid, ask)),
{
    let b = bid.price.0 as int;
    let a = ask.price.0 as int;
    let bv = bid.qty.0 as int;
    let av = ask.qty.0 as int;
    if bv + av > 0 {
        assert((bv + av) * i64::MIN <= a * bv + b * av <= (bv + av) * i64::MAX)
            by (nonlinear_arith)
            requires
                i64::MIN <= a <= i64::MAX,
                i64::MIN <= b <= i64::MAX,
                bv >= 0,
                av >= 0,
        ;
        lemma_average(a * bv + b * av, bv + av, i64::MIN as int, i64::MAX as int);
    } else {
        lemma_average(b + a, 2, i64::MIN as int, i64::MAX as int);
    }
}

/// The sums stay between the lowest and the highest price times the quantity.
proof fn lemma_sums(bids: Seq<Level>, asks: Seq<Level>, depth: int, n: int, low: int, high: int)
    requires
        0 <= n <= depth,
        n <= bids.len(),
        n <= asks.len(),
        forall|i: int| 0 <= i < n ==> low <= (#[trigger] bids[i]).price.0 <= high,
        forall|i: int| 0 <= i < n ==> low <= (#[trigger] asks[i]).price.0 <= high,
    ensures
        size_sum(bids, asks, depth, n) >= 0,
        size_sum(bids, asks, depth, n) * low <= weighed_sum(bids, asks, depth, n) <= size_sum(
            bids,
            asks,
            depth,
            n,
        ) * high,
    decreases n,
{
    if n > 0 {
        lemma_sums(bids, asks, depth, n - 1, low, high);
        let bid = bids[n - 1];
        let ask = asks[n - 1];
        let b = bid.price.0 as int;
        let a = ask.price.0 as int;
        let bv = bid.qty.0 as int;
        let av = ask.qty.0 as int;
        let w = depth - (n - 1);
        let s0 = size_sum(bids, asks, depth, n - 1);
        assert(low <= b <= high && low <= a <= high);
        let t = a * bv + b * av;
        assert((bv + av) * low <= t <= (bv + av) * high) by (nonlinear_arith)
            requires
                t == a * bv + b * av,
                low <= b <= high,
                low <= a <= high,
                bv >= 0,
                av >= 0,
        ;
        let s = bv + av;
        assert(s * w >= 0 && (s * w) * low <= t * w <= (s * w) * high) by (nonlinear_arith)
            requires
                s * low <= t <= s * high,
                w >= 1,
                s >= 0,
        ;
        assert((s0 + s * w) * low == s0 * low + (s * w) * low) by (nonlinear_arith);
        assert((s0 + s * w) * high == s0 * high + (s * w) * high) by (nonlinear_arith);
    }
}

/// The microprice over several pairs of levels lies within the prices of those levels.
pub proof fn weighted_between(
    bids: Seq<Level>,
    asks: Seq<Level>,
    depth: int,
    low: int,
    high: int,
)
    requires
        bids.len() > 0,
        asks.len() > 0,
        depth > 0,
        forall|i: int| 0 <= i < bids.len() ==> low <= (#[trigger] bids[i]).price.0 <= high,
        forall|i: int| 0 <= i < asks.len() ==> low <= (#[trigger] asks[i]).price.0 <= high,
    ensures
        low <= weighted(bids, asks, depth) <= high,
{
    let d = used(bids, asks, depth);
    lemma_sums(bids, asks, depth, d, low, high);
    let count = size_sum(bids, asks, depth, d);
    let total = weighed_sum(bids, asks, depth, d);
    if count > 0 {
        assert(count * low == size_sum(bids, asks, depth, d) * low);
        lemma_average(total, count, low, high);
    } else {
        assert(low <= bids[0].price.0 <= high);
        assert(low <= asks[0].price.0 <= high);
        lemma_average(bids[0].price.0 + asks[0].price.0, 2, low, high);
    }
}

/// The microprice of a best bid and a best ask.
pub fn compute(best_bid: &Level, best_ask: &Level) -> (r: Price)
    requires
        num::fits_i128(weighed(*best_bid, *best_ask)),
    ensures
        r.0 == microprice(*best_bid, *best_ask),
{
    let bv: i128 = best_bid.qty.0 as i128;
    let av: i128 = best_ask.qty.0 as i128;
    let total: i128 = bv + av;
    if total == 0 {
        return best_bid.price.midpoint(best_ask.price);
    }
    proof {
        lemma_value_fits(best_ask.price.0, best_bid.qty.0);
        lemma_value_fits(best_bid.price.0, best_ask.qty.0);
        lemma_microprice_fits(*best_bid, *best_ask);
    }
    let sum: i128 = best_ask.price.0 as i128 * bv + best_bid.price.0 as i128 * av;
    let micro: i128 = sum / total;
    Price(micro as i64)
}

/// The smaller of three numbers.
fn least(a: usize, b: usize, c: usize) -> (r: usize)
    ensures
        r == num::min(num::min(a as int, b as int), c as int),
{
    let ab: usize = if a <= b {
        a
    } else {
        b
    };
    if ab <= c {
        ab
    } else {
        c
    }
}

/// The microprice over the first `depth` pairs of levels, the `i`-th pair counting `depth - i`
/// times.
pub fn compute_weighted(bids: &[Level], asks: &[Level], depth: usize) -> (r: Price)
    requires
        weighted_fits(bids@, asks@, depth as int),
    ensures
        r.0 == weighted(bids@, asks@, depth as int),
{
    if bids.len() == 0 || asks.len() == 0 {
        return Price(0);
    }
    let d: usize = least(depth, bids.len(), asks.len());
    if d == 0 {
        return compute(&bids[0], &asks[0]);
    }
    let mut numerator: i128 = 0;
    let mut denominator: i128 = 0;
    let mut i: usize = 0;
    while i < d
        invariant
            i <= d,
            d == used(bids@, asks@, depth as int),
            d <= depth,
            d <= bids@.len(),
            d <= asks@.len(),
            numerator == weighed_sum(bids@, asks@, depth as int, i as int),
            denominator == size_sum(bids@, asks@, depth as int, i as int),
            forall|n: int| 0 <= n < d ==> #[trigger] step_fits(bids@, asks@, depth as int, n),
        decreases d - i,
    {
        let w: i128 = (depth - i) as i128;
        let bv: i128 = bids[i].qty.0 as i128;
        let av: i128 = asks[i].qty.0 as i128;
        proof {
            assert(step_fits(bids@, asks@, depth as int, i as int));
            lemma_value_fits(asks@[i as int].price.0, bids@[i as int].qty.0);
            lemma_value_fits(bids@[i as int].price.0, asks@[i as int].qty.0);
        }
        numerator = numerator + (asks[i].price.0 as i128 * bv + bids[i].price.0 as i128 * av) * w;
        denominator = denominator + (bv + av) * w;
        i += 1;
    }
    if denominator == 0 {
        return bids[0].price.midpoint(asks[0].price);
    }
    proof {
        lemma_sums(bids@, asks@, depth as int, d as int, i64::MIN as int, i64::MAX as int);
        assert(denominator * i64::MIN == size_sum(bids@, asks@, depth as int, d as int)
            * i64::MIN);
        lemma_average(numerator as int, denominator as int, i64::MIN as int, i64::MAX as int);
    }
    let average: i128 = numerator / denominator;
    Price(average as i64)
}

/// Whether the sums of the microprice over several pairs stay within 128 bits.
pub fn is_weighted_in_range(bids: &[Level], asks: &[Level], depth: usize) -> (r: bool)
    ensures
        r == weighted_fits(bids@, asks@, depth as int),
{
    if bids.len() == 0 || asks.len() == 0 {
        return true;
    }
    let d: usize = least(depth, bids.len(), asks.len());
    if d == 0 {
        proof {
            lemma_value_fits(asks@[0].price.0, bids@[0].qty.0);
            lemma_value_fits(bids@[0].price.0, asks@[0].qty.0);
        }
        let x: i128 = asks[0].price.0 as i128 * bids[0].qty.0 as i128;
        let y: i128 = bids[0].price.0 as i128 * asks[0].qty.0 as i128;
        return x.checked_add(y).is_some();
    }
    let mut numerator: i128 = 0;
    let mut denominator: i128 = 0;
    let mut i: usize = 0;
    while i < d
        invariant
            i <= d,
            d > 0,
            bids@.len() > 0,
            asks@.len() > 0,
            d == used(bids@, asks@, depth as int),
            d <= depth,
            d <= bids@.len(),
            d <= asks@.len(),
            numerator == weighed_sum(bids@, asks@, depth as int, i as int),
            denominator == size_sum(bids@, asks@, depth as int, i as int),
            forall|n: int| 0 <= n < i ==> #[trigger] step_fits(bids@, asks@, depth as int, n),
        decreases d - i,
    {
        let ghost ok = step_fits(bids@, asks@, depth as int, i as int);
        let w: i128 = (depth - i) as i128;
        proof {
            lemma_value_fits(asks@[i as int].price.0, bids@[i as int].qty.0);
            lemma_value_fits(bids@[i as int].price.0, asks@[i as int].qty.0);
        }
        let x: i128 = asks[i].price.0 as i128 * bids[i].qty.0 as i128;
        let y: i128 = bids[i].price.0 as i128 * asks[i].qty.0 as i128;
        let count: i128 = bids[i].qty.0 as i128 + asks[i].qty.0 as i128;
        match x.checked_add(y) {
            None => {
                assert(!ok);
                return false;
            },
            Some(t) => match (t.checked_mul(w), count.checked_mul(w)) {
                (Some(tw), Some(cw)) => match (
                    numerator.checked_add(tw),
                    denominator.checked_add(cw),
                ) {
                    (Some(next_numerator), Some(next_denominator)) => {
                        numerator = next_numerator;
                        denominator = next_denominator;
                    },
                    _ => {
                        assert(!ok);
                        return false;
                    },
                },
                _ => {
                    assert(!ok);
                    return false;
                },
            },
        }
        assert(ok);
        i += 1;
    }
    true
}

/// The quantity of fewer levels is at most that of more.
proof fn lemma_quantity_grows(levels: Seq<Level>, n: int, d: int)
    requires
        0 <= n <= d <= levels.len(),
    ensures
        0 <= quantity_of(levels, n) <= quantity_of(levels, d),
    decreases d,
{
    if n < d {
        lemma_quantity_grows(levels, n, d - 1);
    } else if n > 0 {
        lemma_quantity_grows(levels, n - 1, n - 1);
    }
}

/// The imbalance is a fraction of the total, it is positive only with more bids and negative only
/// with more asks, and swapping the sides changes its sign.
pub proof fn imbalance_is_signed(bids: Seq<Level>, asks: Seq<Level>, depth: nat)
    ensures
        ({
            let d = used(bids, asks, depth as int);
            let r = imbalance_of(bids, asks, depth as int);
            &&& -10000 <= r <= 10000
            &&& r > 0 ==> quantity_of(bids, d) > quantity_of(asks, d)
            &&& r < 0 ==> quantity_of(bids, d) < quantity_of(asks, d)
            &&& imbalance_of(asks, bids, depth as int) == -r
        }),
{
    let d = used(bids, asks, depth as int);
    assert(d == used(asks, bids, depth as int));
    lemma_quantity_grows(bids, d, d);
    lemma_quantity_grows(asks, d, d);
    let gap = quantity_of(bids, d) - quantity_of(asks, d);
    let t = quantity_of(bids, d) + quantity_of(asks, d);
    if t > 0 {
        assert(t * (-10000) <= gap * 10000 <= t * 10000);
        lemma_average(gap * 10000, t, -10000, 10000);
        if gap <= 0 {
            lemma_average(gap * 10000, t, -10000, 0);
        }
        if gap >= 0 {
            lemma_average(gap * 10000, t, 0, 10000);
        }
        assert((-gap) * 10000 == -(gap * 10000));
    }
}

/// The imbalance of bid and ask quantity over the first `depth` levels, in ten-thousandths of
/// the total: positive with more bids, negative with more asks.
pub fn imbalance(bids: &[Level], asks: &[Level], depth: usize) -> (r: i64)
    requires
        imbalance_fits(bids@, asks@, depth as int),
    ensures
        r == imbalance_of(bids@, asks@, depth as int),
        -10000 <= r <= 10000,
{
    let d: usize = least(depth, bids.len(), asks.len());
    if d == 0 {
        return 0;
    }
    let mut bv: i128 = 0;
    let mut av: i128 = 0;
    let mut i: usize = 0;
    while i < d
        invariant
            i <= d,
            d <= bids@.len(),
            d <= asks@.len(),
            d == used(bids@, asks@, depth as int),
            imbalance_fits(bids@, asks@, depth as int),
            bv == quantity_of(bids@, i as int),
            av == quantity_of(asks@, i as int),
        decreases d - i,
    {
        proof {
            lemma_quantity_grows(bids@, i as int, i + 1);
            lemma_quantity_grows(asks@, i as int, i + 1);
            lemma_quantity_grows(bids@, i + 1, d as int);
            lemma_quantity_grows(asks@, i + 1, d as int);
        }
        bv = bv + bids[i].qty.0 as i128;
        av = av + asks[i].qty.0 as i128;
        i += 1;
    }
    proof {
        lemma_quantity_grows(bids@, d as int, d as int);
        lemma_quantity_grows(asks@, d as int, d as int);
    }
    let total: i128 = bv + av;
    if total == 0 {
        return 0;
    }
    proof {
        let gap = (bv - av) as int;
        let t = total as int;
        assert(t * (-10000) <= gap * 10000 <= t * 10000);
        lemma_average(gap * 10000, t, -10000, 10000);
    }
    let scaled: i128 = (bv - av) * 10000 / total;
    scaled as i64
}

/// The microprice leans away from quantity: all quantity on one side puts it at the price of the
/// other side, equal quantities put it at the midpoint, and more quantity to buy never lowers it.
pub proof fn microprice_leans_to_the_thinner_side(bid: Level, ask: Level, more: Level)
    requires
        bid.price.0 <= ask.price.0,
        more.price == bid.price,
        more.qty.0 >= bid.qty.0,
    ensures
        bid.qty.0 > 0 && ask.qty.0 == 0 ==> microprice(bid, ask) == ask.price.0,
        bid.qty.0 == 0 && ask.qty.0 > 0 ==> microprice(bid, ask) == bid.price.0,
        bid.qty.0 == ask.qty.0 ==> microprice(bid, ask) == num::trunc_div(
            bid.price.0 + ask.price.0,
            2,
        ),
        bid.qty.0 + ask.qty.0 > 0 ==> microprice(bid, ask) <= microprice(more, ask),
{
    let b = bid.price.0 as int;
    let a = ask.price.0 as int;
    let bv = bid.qty.0 as int;
    let av = ask.qty.0 as int;
    let mv = more.qty.0 as int;
    if bv > 0 && av == 0 {
        assert(a * bv + b * 0 == bv * a) by (nonlinear_arith);
        lemma_average(a * bv + b * av, bv, a, a);
    }
    if bv == 0 && av > 0 {
        assert(a * 0 + b * av == av * b) by (nonlinear_arith);
        lemma_average(a * bv + b * av, av, b, b);
    }
    if bv == av && bv > 0 {
        assert(a * bv + b * bv == (a + b) * bv) by (nonlinear_arith);
        lemma_cancel(a + b, 2, bv);
        assert(2 * bv == bv + bv);
    }
    if bv + av > 0 {
        let x = a * bv + b * av;
        let y = a * mv + b * av;
        let m = bv + av;
        let n = mv + av;
        assert(x * n <= y * m) by (nonlinear_arith)
            requires
                x == a * bv + b * av,
                y == a * mv + b * av,
                m == bv + av,
                n == mv + av,
                b <= a,
                0 <= bv <= mv,
                av >= 0,
        {
            assert(y * m - x * n == (a - b) * ((mv - bv) * av));
            assert((mv - bv) * av >= 0);
            assert((a - b) * ((mv - bv) * av) >= 0);
        }
        lemma_fraction_order(x, m, y, n);
    }
}

/// A common factor of both sides does not change a quotient.
proof fn lemma_cancel(total: int, count: int, factor: int)
    requires
        count > 0,
        factor > 0,
    ensures
        num::trunc_div(total * factor, count * factor) == num::trunc_div(total, count),
{
    if total >= 0 {
        assert(total * factor >= 0) by (nonlinear_arith)
            requires
                total >= 0,
                factor > 0,
        ;
        lemma_cancel_nat(total, count, factor);
    } else {
        assert(total * factor < 0) by (nonlinear_arith)
            requires
                total < 0,
                factor > 0,
        ;
        assert(-(total * factor) == (-total) * factor) by (nonlinear_arith);
        lemma_cancel_nat(-total, count, factor);
    }
}

/// A common factor of both sides does not change a quotient of natural numbers.
proof fn lemma_cancel_nat(total: int, count: int, factor: int)
    requires
        total >= 0,
        count > 0,
        factor > 0,
    ensures
        (total * factor) / (count * factor) == total / count,
{
    let q = total / count;
    let r = total % count;
    vstd::arithmetic::div_mod::lemma_fundamental_div_mod(total, count);
    assert(count * factor > 0) by (nonlinear_arith)
        requires
            count > 0,
            factor > 0,
    ;
    assert(total * factor == q * (count * factor) + r * factor) by (nonlinear_arith)
        requires
            total == count * q + r,
    ;
    assert(0 <= r * factor < count * factor) by (nonlinear_arith)
        requires
            0 <= r < count,
            factor > 0,
    ;
    vstd::arithmetic::div_mod::lemma_fundamental_div_mod_converse(
        total * factor,
        count * factor,
        q,
        r * factor,
    );
}

/// The quotients of two fractions are ordered as the fractions.
proof fn lemma_fraction_order(x: int, m: int, y: int, n: int)
    requires
        m > 0,
        n > 0,
        x * n <= y * m,
    ensures
        num::trunc_div(x, m) <= num::trunc_div(y, n),
{
    let p = num::trunc_div(x, m);
    let q = num::trunc_div(y, n);
    if x >= 0 && y >= 0 {
        assert(x / m <= y / n) by (nonlinear_arith)
            requires
                m > 0,
                n > 0,
                x >= 0,
                y >= 0,
                x * n <= y * m,
        {
            let a = x / m;
            let b = y / n;
            assert(a * m <= x);
            assert(y < (b + 1) * n);
            if a > b {
                assert(a >= b + 1);
                assert(a * m * n <= x * n);
                assert(y * m < (b + 1) * n * m);
                assert((b + 1) * n * m <= a * m * n);
            }
        }
    } else if x < 0 && y < 0 {
        let u = -x;
        let v = -y;
        assert(v * m <= u * n) by (nonlinear_arith)
            requires
                u == -x,
                v == -y,
                x * n <= y * m,
        ;
        assert(v / n <= u / m) by (nonlinear_arith)
            requires
                m > 0,
                n > 0,
                u >= 0,
                v >= 0,
                v * m <= u * n,
        {
            let a = v / n;
            let b = u / m;
            assert(a * n <= v);
            assert(u < (b + 1) * m);
            if a > b {
                assert(a >= b + 1);
                assert(a * n * m <= v * m);
                assert(u * n < (b + 1) * m * n);
                assert((b + 1) * m * n <= a * n * m);
            }
        }
    } else if x >= 0 {
        assert(x * n >= 0 && y * m < 0) by (nonlinear_arith)
            requires
                x >= 0,
                y < 0,
                m > 0,
                n > 0,
        ;
    } else {
        assert(p <= 0) by (nonlinear_arith)
            requires
                p == -((-x) / m),
                x < 0,
                m > 0,
        ;
        assert(q >= 0) by (nonlinear_arith)
            requires
                q == y / n,
                y >= 0,
                n > 0,
        ;
    }
}

/// With one more level of depth every pair that is used counts once more, and a pair at the depth
/// itself does not count: so the `i`-th pair counts `depth - i` times.
pub proof fn nearer_levels_count_more(bids: Seq<Level>, asks: Seq<Level>, depth: int, n: int)
    requires
        n >= 0,
    ensures
        weighed_sum(bids, asks, depth + 1, n) - weighed_sum(bids, asks, depth, n)
            == each_once(bids, asks, n).0,
        size_sum(bids, asks, depth + 1, n) - size_sum(bids, asks, depth, n) == each_once(
            bids,
            asks,
            n,
        ).1,
        weighed_sum(bids, asks, n, n + 1) == weighed_sum(bids, asks, n, n),
        size_sum(bids, asks, n, n + 1) == size_sum(bids, asks, n, n),
    decreases n,
{
    if n > 0 {
        nearer_levels_count_more(bids, asks, depth, n - 1);
        let t = weighed(bids[n - 1], asks[n - 1]);
        let z = size(bids[n - 1], asks[n - 1]);
        let w = depth - (n - 1);
        assert(t * (w + 1) == t * w + t) by (nonlinear_arith);
        assert(z * (w + 1) == z * w + z) by (nonlinear_arith);
    }
    assert(weighed(bids[n], asks[n]) * 0 == 0) by (nonlinear_arith);
    assert(size(bids[n], asks[n]) * 0 == 0) by (nonlinear_arith);
}

/// The sums over the first `n` pairs of levels of the prices, each times the quantity of the other
/// side, and of the quantities.
pub open spec fn each_once(bids: Seq<Level>, asks: Seq<Level>, n: int) -> (int, int)
    decreases n,
{
    if n <= 0 {
        (0, 0)
    } else {
        let (value, count) = each_once(bids, asks, n - 1);
        let b = bids[n - 1];
        let a = asks[n - 1];
        (
            value + a.price.0 * b.qty.0 + b.price.0 * a.qty.0,
            count + b.qty.0 + a.qty.0,
        )
    }
}

/// The fair value over several pairs is the quotient of the two sums, cut toward zero; over one
/// pair it is the microprice of that pair, whatever the depth.
pub proof fn fair_value_averages_levels(bids: Seq<Level>, asks: Seq<Level>, depth: int)
    requires
        bids.len() > 0,
        asks.len() > 0,
        depth > 0,
    ensures
        ({
            let n = num::min(num::min(depth, bids.len() as int), asks.len() as int);
            let value = weighed_sum(bids, asks, depth, n);
            let count = size_sum(bids, asks, depth, n);
            let r = weighted(bids, asks, depth);
            &&& count > 0 ==> num::abs(r * count) <= num::abs(value) < num::abs(r * count) + count
            &&& n == 1 ==> r == microprice(bids[0], asks[0])
        }),
{
    let n = used(bids, asks, depth);
    let value = weighed_sum(bids, asks, depth, n);
    let count = size_sum(bids, asks, depth, n);
    if count > 0 {
        num::division_cuts_toward_zero(value, count);
    }
    lemma_size_sum(bids, asks, depth, n);
    if n == 1 {
        reveal_with_fuel(weighed_sum, 2);
        reveal_with_fuel(size_sum, 2);
        let t = weighed(bids[0], asks[0]);
        let z = size(bids[0], asks[0]);
        if z > 0 {
            assert(z * depth > 0) by (nonlinear_arith)
                requires
                    z > 0,
                    depth > 0,
            ;
            lemma_cancel(t, z, depth);
        } else {
            assert(z * depth == 0) by (nonlinear_arith)
                requires
                    z == 0,
            ;
        }
    }
}

/// Quantities add up to no less than nothing.
proof fn lemma_size_sum(bids: Seq<Level>, asks: Seq<Level>, depth: int, n: int)
    requires
        n <= depth,
    ensures
        size_sum(bids, asks, depth, n) >= 0,
    decreases n,
{
    if n > 0 {
        lemma_size_sum(bids, asks, depth, n - 1);
        let z = size(bids[n - 1], asks[n - 1]);
        let w = depth - (n - 1);
        assert(z * w >= 0) by (nonlinear_arith)
            requires
                z >= 0,
                w >= 0,
        ;
    }
}

/// The imbalance is the difference of the quantities to buy and to sell, in ten-thousandths of
/// both, cut toward zero; the quantities are those of the first levels of both sides, as many as
/// the depth and both sides have.
pub proof fn imbalance_is_relative(bids: Seq<Level>, asks: Seq<Level>, depth: nat)
    ensures
        ({
            let n = num::min(num::min(depth as int, bids.len() as int), asks.len() as int);
            let b = quantity_of(bids, n);
            let a = quantity_of(asks, n);
            let r = imbalance_of(bids, asks, depth as int);
            &&& a + b == 0 ==> r == 0
            &&& a + b > 0 ==> num::abs(r * (a + b)) <= num::abs((b - a) * 10000) < num::abs(
                r * (a + b),
            ) + a + b
            &&& b > a ==> r >= 0
            &&& b < a ==> r <= 0
            &&& a == 0 && b > 0 ==> r == 10000
            &&& n > 0 ==> b == quantity_of(bids, n - 1) + bids[n - 1].qty.0
        }),
{
    let n = used(bids, asks, depth as int);
    lemma_quantity_grows(bids, n, n);
    lemma_quantity_grows(asks, n, n);
    let b = quantity_of(bids, n);
    let a = quantity_of(asks, n);
    if a + b > 0 {
        num::division_cuts_toward_zero((b - a) * 10000, a + b);
        if b >= a {
            lemma_average((b - a) * 10000, a + b, 0, 10000);
        } else {
            lemma_average((b - a) * 10000, a + b, -10000, 0);
        }
        if a == 0 {
            assert(b * 10000 / b == 10000) by (nonlinear_arith)
                requires
                    b > 0,
            ;
        }
    }
}

} // verus!
