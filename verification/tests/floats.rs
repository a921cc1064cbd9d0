//! The rules over 64-bit floats.

use polymarket_arb::circuit_breaker::{CircuitBreaker, CircuitBreakerConfig};
use polymarket_arb::config::{MarketCategory, TOTAL_CAPITAL_CENTS};
use polymarket_arb::event_detector::{ArbEvent, EventDetector};
use polymarket_arb::market_scanner::{Outcome, TrackedMarket};
use polymarket_arb::metrics::Metrics;
use polymarket_arb::paper_trading::{PaperTrader, SimulatedTrade};
use polymarket_arb::position_tracker::{MarketPosition, OutcomePosition};
use polymarket_arb::quantity::Quantity;
use polymarket_arb::timestamp::Timestamp;
use polymarket_arb::types::{cents_to_price, parse_price, price_to_cents};

/// Numbers as 64-bit floats.
#[derive(Clone, Copy, Debug, PartialEq)]
struct F64(f64);

impl Quantity for F64 {
    fn zero() -> Self {
        F64(0.0)
    }
    fn highest() -> Self {
        F64(f64::MAX)
    }
    fn ratio(numerator: i64, denominator: i64) -> Self {
        F64(numerator as f64 / denominator as f64)
    }
    fn from_int(n: i128) -> Self {
        F64(n as f64)
    }
    fn hundredths(n: u16) -> Self {
        F64(n as f64 / 100.0)
    }
    fn parse(s: &str) -> Option<Self> {
        s.parse().ok().map(F64)
    }
    fn plus(self, other: Self) -> Self {
        F64(self.0 + other.0)
    }
    fn minus(self, other: Self) -> Self {
        F64(self.0 - other.0)
    }
    fn times(self, other: Self) -> Self {
        F64(self.0 * other.0)
    }
    fn over(self, other: Self) -> Self {
        F64(self.0 / other.0)
    }
    fn magnitude(self) -> Self {
        F64(self.0.abs())
    }
    fn lesser(self, other: Self) -> Self {
        F64(self.0.min(other.0))
    }
    fn below(self, other: Self) -> bool {
        self.0 < other.0
    }
    fn at_most(self, other: Self) -> bool {
        self.0 <= other.0
    }
    fn rounded(self, low: i128, high: i128) -> i128 {
        (self.0.round() as i128).clamp(low, high)
    }
    fn truncated(self, low: i128, high: i128) -> i128 {
        (self.0 as i128).clamp(low, high)
    }
    fn tenths(self) -> String {
        format!("{:.1}", self.0)
    }
}

fn now() -> Timestamp {
    let t = chrono::Utc::now();
    Timestamp { secs: t.timestamp(), nanos: t.timestamp_subsec_nanos() }
}

fn outcome(name: &str, token_id: &str, ask: f64, size: f64, bid: f64) -> Outcome<F64> {
    Outcome {
        name: name.to_string(),
        token_id: token_id.to_string(),
        ask_price: F64(ask),
        ask_size: F64(size),
        bid_price: F64(bid),
    }
}

fn market(question: &str, outcomes: Vec<Outcome<F64>>, category: MarketCategory) -> TrackedMarket<F64> {
    TrackedMarket {
        condition_id: "test".to_string(),
        question: question.to_string(),
        slug: "test".to_string(),
        outcomes,
        volume_usd: F64(100000.0),
        liquidity_usd: F64(10000.0),
        created_at: None,
        end_date: None,
        category,
        active: true,
        closed: false,
        is_new: false,
        last_updated: now(),
        tags: vec![],
    }
}

#[test]
fn test_tracked_market_profit() {
    let market = market(
        "Test?",
        vec![outcome("Yes", "1", 0.45, 100.0, 0.44), outcome("No", "2", 0.52, 100.0, 0.51)],
        MarketCategory::Sports,
    );

    assert_eq!(market.sum_of_asks(), F64(0.97));
    assert_eq!(market.potential_profit_cents(), 3);
    assert!(market.is_binary());
}

#[test]
fn test_multi_outcome_profit() {
    let market = market(
        "Who wins?",
        vec![
            outcome("A", "1", 0.30, 50.0, 0.29),
            outcome("B", "2", 0.25, 50.0, 0.24),
            outcome("C", "3", 0.20, 30.0, 0.19),
            outcome("D", "4", 0.20, 40.0, 0.19),
        ],
        MarketCategory::Politics,
    );

    assert_eq!(market.sum_of_asks(), F64(0.95));
    assert_eq!(market.potential_profit_cents(), 5);
    assert!(!market.is_binary());
    assert_eq!(market.min_liquidity(), F64(30.0));
}

fn make_test_market(sum_of_asks: f64) -> TrackedMarket<F64> {
    let mut made = market(
        "Test market?",
        vec![
            outcome("Yes", "1", sum_of_asks / 2.0, 100.0, sum_of_asks / 2.0 - 0.01),
            outcome("No", "2", sum_of_asks / 2.0, 100.0, sum_of_asks / 2.0 - 0.01),
        ],
        MarketCategory::Sports,
    );
    made.created_at = Some(now());
    made.is_new = true;
    made
}

#[test]
fn test_arb_detection() {
    let mut detector: EventDetector<F64> = EventDetector::new();

    let market = make_test_market(0.96);
    let events = detector.process_market(&market, now());

    let arb_events: Vec<_> =
        events.iter().filter(|e| matches!(e, ArbEvent::ArbOpportunity { .. })).collect();

    assert_eq!(arb_events.len(), 1);

    if let ArbEvent::ArbOpportunity { profit_cents, .. } = &arb_events[0] {
        assert_eq!(*profit_cents, 4);
    }
}

#[test]
fn test_no_arb_when_efficient() {
    let mut detector: EventDetector<F64> = EventDetector::new();

    let market = make_test_market(1.02);
    let events = detector.process_market(&market, now());

    let arb_events: Vec<_> =
        events.iter().filter(|e| matches!(e, ArbEvent::ArbOpportunity { .. })).collect();

    assert_eq!(arb_events.len(), 0);
}

#[test]
fn test_new_market_detection() {
    let mut detector: EventDetector<F64> = EventDetector::new();

    let mut market = make_test_market(1.0);
    let at = now();
    market.is_new = true;
    market.created_at = Some(Timestamp { secs: at.secs - 2 * 3600, nanos: at.nanos });

    let events = detector.process_market(&market, at);

    let new_market_events: Vec<_> =
        events.iter().filter(|e| matches!(e, ArbEvent::NewMarket { .. })).collect();

    assert_eq!(new_market_events.len(), 1);
}

#[test]
fn test_metrics_initialization() {
    let metrics: Metrics<F64> = Metrics::new(10_000, 0);
    assert_eq!(metrics.financial.current_capital_cents, 10_000);
    assert_eq!(metrics.win_rate(), F64(0.0));
}

#[test]
fn metrics_test_win_rate_calculation() {
    let mut metrics: Metrics<F64> = Metrics::new(10_000, 0);

    for _ in 0..3 {
        metrics.record_execution(1000, 100, true, MarketCategory::Sports, 2);
    }
    for _ in 0..2 {
        metrics.record_execution(1000, -50, false, MarketCategory::Sports, 2);
    }

    assert!((metrics.win_rate().0 - 60.0).abs() < 0.1);
}

#[test]
fn test_latency_tracking() {
    let mut metrics: Metrics<F64> = Metrics::new(10_000, 0);

    metrics.timing.record_detection(1_000_000);
    metrics.timing.record_detection(2_000_000);
    metrics.timing.record_detection(3_000_000);

    assert!((metrics.avg_detection_latency_ms().0 - 2.0).abs() < 0.1);
}

#[test]
fn test_paper_trader_initialization() {
    let trader: PaperTrader<F64> = PaperTrader::new(now());
    assert!(trader.is_enabled());
    assert_eq!(trader.balance_cents(), TOTAL_CAPITAL_CENTS as i64);
    assert_eq!(trader.pnl_cents(), 0);
}

#[test]
fn test_can_go_live_checks() {
    let mut trader: PaperTrader<F64> = PaperTrader::new(now());

    let (can, reason) = trader.can_go_live();
    assert!(!can);
    assert!(reason.contains("days"));

    for _ in 0..14 {
        trader.next_day();
    }

    let (can, reason) = trader.can_go_live();
    assert!(!can);
    assert!(reason.contains("trades"));
}

fn add_trades(trader: &mut PaperTrader<F64>) {
    for i in 0..10 {
        trader.trades.push(SimulatedTrade {
            id: i,
            timestamp: now(),
            market_question: "Test".to_string(),
            outcome_count: 2,
            expected_profit_cents: 5,
            actual_profit_cents: if i < 7 { 4 } else { -2 },
            fill_rate: F64(1.0),
            slippage_cents: 1,
            execution_delay_ms: 100,
            success: i < 7,
            reason: "Test".to_string(),
        });
    }
}

#[test]
fn paper_trading_test_win_rate_calculation() {
    let mut trader: PaperTrader<F64> = PaperTrader::new(now());
    add_trades(&mut trader);

    let win_rate = trader.win_rate();
    assert!((win_rate.0 - 0.7).abs() < 0.01);
}

#[test]
fn test_outcome_position() {
    let mut pos: OutcomePosition<F64> = OutcomePosition::new("Yes", "token1");
    pos.add(F64(10.0), F64(0.45));

    assert_eq!(pos.contracts, F64(10.0));
    assert!((pos.cost_basis.0 - 4.50).abs() < 0.001);
    assert!((pos.profit_if_win().0 - 5.50).abs() < 0.001);
}

#[test]
fn test_market_position_profit() {
    let mut pos: MarketPosition<F64> = MarketPosition::new("cond1", "Test", 2, now());

    pos.outcomes.push(OutcomePosition {
        outcome_name: "Yes".to_string(),
        token_id: "t1".to_string(),
        contracts: F64(10.0),
        cost_basis: F64(4.50),
        avg_price: F64(0.45),
    });

    pos.outcomes.push(OutcomePosition {
        outcome_name: "No".to_string(),
        token_id: "t2".to_string(),
        contracts: F64(10.0),
        cost_basis: F64(5.00),
        avg_price: F64(0.50),
    });

    assert!((pos.total_cost().0 - 9.50).abs() < 0.001);
    assert!((pos.matched_contracts().0 - 10.0).abs() < 0.001);
    assert!((pos.guaranteed_profit().0 - 0.50).abs() < 0.001);
}

#[test]
fn test_parse_price() {
    assert_eq!(parse_price::<F64>("0.50"), 50);
    assert_eq!(parse_price::<F64>("0.01"), 1);
    assert_eq!(parse_price::<F64>("0.99"), 99);
    assert_eq!(parse_price::<F64>("0.5"), 50);
    assert_eq!(parse_price::<F64>("0.505"), 51);
}

#[test]
fn test_price_conversions() {
    assert_eq!(price_to_cents(F64(0.50)), 50);
    assert_eq!(price_to_cents(F64(0.01)), 1);
    assert_eq!(price_to_cents(F64(0.99)), 99);

    assert!((cents_to_price::<F64>(50).0 - 0.50).abs() < 0.001);
    assert!((cents_to_price::<F64>(1).0 - 0.01).abs() < 0.001);
}

#[test]
fn cents_survive_a_float_price() {
    for c in 0..=99 {
        assert_eq!(price_to_cents(cents_to_price::<F64>(c)), c);
    }
}

#[test]
fn test_circuit_breaker_basic() {
    let config = CircuitBreakerConfig::conservative();
    let cb = CircuitBreaker::new(config);

    assert!(cb.is_trading_allowed());
    assert!(cb.can_execute("market1", 10).is_ok());
}

#[test]
fn test_consecutive_errors() {
    let mut config = CircuitBreakerConfig::conservative();
    config.max_consecutive_errors = 3;
    let mut cb = CircuitBreaker::new(config);

    cb.record_error(0);
    cb.record_error(0);
    assert!(cb.is_trading_allowed());

    cb.record_error(0);
    assert!(!cb.is_trading_allowed());
}
