use atomic_mesh::error::AtomicError;
use atomic_mesh::risk::{RiskEngine, RiskLimits};
use atomic_mesh::types::{Position, Price, Qty, Side, Symbol, Venue};

fn sym() -> Symbol {
    Symbol::new("BTC", "USDT", Venue::Binance)
}

fn engine(limits: RiskLimits) -> RiskEngine {
    RiskEngine::new(limits)
}

#[test]
fn check_order_passes_within_limits() {
    let mut risk = engine(RiskLimits::default());
    let result = risk.check_order(&sym(), Side::Buy, Qty(1_000_000), Price(50_000), None, 0);
    assert!(result.is_ok());
}

#[test]
fn reject_exceeds_max_order_qty() {
    let limits = RiskLimits { max_order_qty: 100, ..Default::default() };
    let mut risk = engine(limits);
    let result = risk.check_order(&sym(), Side::Buy, Qty(200), Price(50_000), None, 0);
    assert!(result.is_err());
}

#[test]
fn reject_exceeds_max_open_orders() {
    let limits = RiskLimits { max_open_orders: 2, ..Default::default() };
    let mut risk = engine(limits);
    risk.on_order_opened();
    risk.on_order_opened();
    let result = risk.check_order(&sym(), Side::Buy, Qty(100), Price(50_000), None, 0);
    assert!(result.is_err());
}

#[test]
fn kill_switch_on_max_loss() {
    let limits = RiskLimits { max_loss: -1000, ..Default::default() };
    let mut risk = engine(limits);
    risk.update_pnl(-2000);
    let result = risk.check_order(&sym(), Side::Buy, Qty(100), Price(50_000), None, 0);
    assert!(result.is_err());
    assert!(risk.is_killed());
}

#[test]
fn kill_switch_blocks_all_orders() {
    let mut risk = engine(RiskLimits::default());
    risk.activate_kill_switch("test");
    let result = risk.check_order(&sym(), Side::Buy, Qty(1), Price(1), None, 0);
    assert!(result.is_err());
}

#[test]
fn reset_kill_switch_allows_orders() {
    let mut risk = engine(RiskLimits::default());
    risk.activate_kill_switch("test");
    assert!(risk.is_killed());
    risk.reset_kill_switch();
    assert!(!risk.is_killed());
    let result = risk.check_order(&sym(), Side::Buy, Qty(1), Price(1), None, 0);
    assert!(result.is_ok());
}

#[test]
fn rate_limit_rejects_burst() {
    let limits = RiskLimits { max_orders_per_second: 3, ..Default::default() };
    let mut risk = engine(limits);
    let ts = 1_000_000_000_000u64;
    assert!(risk.check_order(&sym(), Side::Buy, Qty(1), Price(1), None, ts).is_ok());
    assert!(risk.check_order(&sym(), Side::Buy, Qty(1), Price(1), None, ts + 100).is_ok());
    assert!(risk.check_order(&sym(), Side::Buy, Qty(1), Price(1), None, ts + 200).is_ok());
    assert!(risk.check_order(&sym(), Side::Buy, Qty(1), Price(1), None, ts + 300).is_err());
}

#[test]
fn rate_limit_resets_after_one_second() {
    let limits = RiskLimits { max_orders_per_second: 2, ..Default::default() };
    let mut risk = engine(limits);
    let ts = 1_000_000_000_000u64;
    assert!(risk.check_order(&sym(), Side::Buy, Qty(1), Price(1), None, ts).is_ok());
    assert!(risk.check_order(&sym(), Side::Buy, Qty(1), Price(1), None, ts + 100).is_ok());
    assert!(risk
        .check_order(&sym(), Side::Buy, Qty(1), Price(1), None, ts + 1_000_000_001)
        .is_ok());
}

#[test]
fn pnl_tracking() {
    let mut risk = engine(RiskLimits::default());
    assert_eq!(risk.total_pnl(), 0);
    risk.update_pnl(500);
    risk.update_pnl(-200);
    assert_eq!(risk.total_pnl(), 300);
}

#[test]
fn position_limit_check() {
    let limits = RiskLimits { max_position_qty: 1000, ..Default::default() };
    let mut risk = engine(limits);
    let pos = Position::flat(sym());
    let result = risk.check_order(&sym(), Side::Buy, Qty(800), Price(1), Some(&pos), 0);
    assert!(result.is_ok());
}

#[test]
fn daily_reset_clears_pnl_and_peak() {
    let mut risk = engine(RiskLimits::default());
    risk.update_pnl(1_000);
    risk.update_pnl(-250);
    assert!(risk.peak_pnl() > 0);
    assert!(risk.total_pnl() > 0);

    risk.daily_reset();

    assert_eq!(risk.total_pnl(), 0);
    assert_eq!(risk.peak_pnl(), 0);
    assert_eq!(risk.consecutive_losses(), 0);
    assert!(!risk.is_circuit_breaker());
}

#[test]
fn reject_exceeds_max_total_notional() {
    let limits = RiskLimits {
        max_total_notional: 500,
        max_notional: 1_000_000,
        ..Default::default()
    };
    let mut risk = engine(limits);
    let pos = Position::flat(sym());
    let result = risk.check_order(&sym(), Side::Buy, Qty(1000), Price(1), Some(&pos), 0);
    assert!(result.is_err());
}

#[test]
fn spread_gate_rejects_wide_spread() {
    let limits = RiskLimits { max_spread: 100, ..Default::default() };
    let mut risk = engine(limits);
    risk.update_spread(200);
    let result = risk.check_order(&sym(), Side::Buy, Qty(1), Price(1), None, 0);
    assert!(result.is_err());
}

#[test]
fn consecutive_losses_trigger_circuit_breaker() {
    let limits = RiskLimits { max_consecutive_losses: 3, ..Default::default() };
    let mut risk = engine(limits);
    risk.record_loss();
    risk.record_loss();
    assert!(!risk.is_circuit_breaker());
    risk.record_loss();
    assert!(risk.is_circuit_breaker());
    let result = risk.check_order(&sym(), Side::Buy, Qty(1), Price(1), None, 0);
    assert!(result.is_err());
}

#[test]
fn drawdown_triggers_circuit_breaker() {
    let limits = RiskLimits { max_drawdown_bps: 100, ..Default::default() };
    let mut risk = engine(limits);
    risk.update_pnl(10_000);
    risk.update_pnl(-10_200);
    assert!(risk.is_circuit_breaker());
}

fn refusal(result: Result<(), AtomicError>) -> String {
    result.unwrap_err().to_text()
}

#[test]
fn refusals_say_which_limit() {
    let limits = RiskLimits {
        max_order_qty: 100,
        max_position_qty: 50,
        max_notional: 40,
        max_open_orders: 0,
        ..Default::default()
    };
    let mut risk = engine(limits);
    let flat = Position::flat(sym());
    assert_eq!(
        refusal(risk.check_order(&sym(), Side::Buy, Qty(101), Price(1), None, 0)),
        "risk limit exceeded: order qty 101 exceeds max 100"
    );
    assert_eq!(
        refusal(risk.check_order(&sym(), Side::Buy, Qty(60), Price(1), Some(&flat), 0)),
        "risk limit exceeded: resulting position 60 exceeds max 50"
    );
    assert_eq!(
        refusal(risk.check_order(&sym(), Side::Buy, Qty(45), Price(1), Some(&flat), 0)),
        "risk limit exceeded: notional 45 exceeds max 40"
    );
    assert_eq!(
        refusal(risk.check_order(&sym(), Side::Buy, Qty(45), Price(1), None, 0)),
        "risk limit exceeded: open orders 0 exceeds max 0"
    );
    risk.activate_kill_switch("x");
    assert_eq!(
        refusal(risk.check_order(&sym(), Side::Buy, Qty(1), Price(1), None, 0)),
        "kill switch activated: kill switch is active"
    );
}

#[test]
fn opposite_orders_reduce_the_position() {
    let limits = RiskLimits { max_position_qty: 100, ..Default::default() };
    let mut risk = engine(limits);
    let mut pos = Position::flat(sym());
    pos.side = Side::Buy;
    pos.qty = Qty(90);
    assert!(risk
        .check_order(&sym(), Side::Buy, Qty(11), Price(1), Some(&pos), 0)
        .is_err());
    assert!(risk
        .check_order(&sym(), Side::Sell, Qty(90), Price(1), Some(&pos), 0)
        .is_ok());
    assert!(risk
        .check_order(&sym(), Side::Sell, Qty(191), Price(1), Some(&pos), 0)
        .is_err());
}

#[test]
fn counts_of_open_orders_stay_at_zero() {
    let mut risk = engine(RiskLimits::default());
    risk.on_order_closed();
    assert_eq!(risk.open_order_count(), 0);
    risk.on_order_opened();
    assert_eq!(risk.open_order_count(), 1);
    assert!(risk.is_pnl_in_range(5));
    assert!(!engine_at(i64::MAX).is_pnl_in_range(1));
}

fn engine_at(pnl: i64) -> RiskEngine {
    let mut risk = engine(RiskLimits { max_drawdown_bps: 0, ..Default::default() });
    risk.update_pnl(pnl);
    risk
}

#[test]
fn checks_beyond_the_range_are_seen_coming() {
    let limits = RiskLimits { max_order_qty: u64::MAX, ..Default::default() };
    let mut risk = engine(limits);
    let mut long = Position::flat(sym());
    long.qty = Qty(u64::MAX);
    let (side, price) = (Side::Buy, Price(50_000));
    assert!(risk.is_check_in_range(side, Qty(1), price, None, 5));
    assert!(!risk.is_check_in_range(long.side, Qty(1), price, Some(&long), 5));
    long.qty = Qty(999_999_999);
    assert!(risk.is_check_in_range(long.side, Qty(1), price, Some(&long), 5));
    assert!(!risk.is_check_in_range(long.side, Qty(1), Price(i64::MAX), Some(&long), 5));
    assert!(risk.check_order(&sym(), side, Qty(1), price, None, 5).is_ok());
    assert!(!risk.is_check_in_range(side, Qty(1), price, None, 4));
    assert!(risk.is_check_in_range(side, Qty(1), price, None, 5));
}

#[test]
fn kill_switch_outlasts_the_day_and_the_breaker_does_not() {
    let limits = RiskLimits { max_consecutive_losses: 1, ..Default::default() };
    let mut risk = engine(limits);
    risk.record_loss();
    risk.activate_kill_switch("test");
    risk.update_pnl(5);
    assert!(risk.is_circuit_breaker() && risk.is_killed());
    risk.daily_reset();
    assert!(!risk.is_circuit_breaker());
    assert!(risk.is_killed());
    assert!(risk.check_order(&sym(), Side::Buy, Qty(1), Price(1), None, 0).is_err());
}
