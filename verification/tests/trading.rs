//! Limits, simulated trading, figures, execution and positions.

use polymarket_arb::circuit_breaker::{
    is_switch_on, BreakerSettings, CircuitBreaker, CircuitBreakerConfig, TripReason,
};
use polymarket_arb::config::{MarketCategory, Modes};
use polymarket_arb::execution::{
    build_tracked_market, calculate_position_size, fill_result, plan_orders, profit_of_fills,
    summarize_fills, ExecutionEngine, ExecutionMode, ExecutionPlan, ExecutionResult, FillResult,
    FillSummary, OrderOutcome,
};
use polymarket_arb::market_scanner::{Outcome, TrackedMarket};
use polymarket_arb::metrics::{recommend, Metrics};
use polymarket_arb::paper_trading::{
    ExecutionDraws, PaperTrader, PaperTradingConfig, SimulatedResult, SimulatedTrade,
};
use polymarket_arb::position_tracker::{
    FillBatch, FillRecord, MarketPosition, OutcomePosition, PositionTracker,
};
use polymarket_arb::quantity::{Decimal, Quantity};
use polymarket_arb::session::{best_opportunity, open_books, track_markets, DayClock};
use polymarket_arb::timestamp::Timestamp;
use polymarket_arb::types::{ArbType, ExecutionRequest, GlobalState};

fn d(s: &str) -> Decimal {
    Decimal::parse(s).unwrap()
}

/// 2025-01-01T00:00:00Z.
const NOW: Timestamp = Timestamp { secs: 1_735_689_600, nanos: 0 };

const SECOND: u64 = 1_000_000_000;

// Limits

fn breaker() -> CircuitBreaker {
    CircuitBreaker::new(CircuitBreakerConfig::conservative())
}

#[test]
fn limits_come_from_the_environment() {
    let none = BreakerSettings {
        max_position_per_market: None,
        max_total_position: None,
        max_daily_loss: None,
        max_consecutive_errors: None,
        cooldown_secs: None,
        enabled: None,
    };
    let config = CircuitBreakerConfig::from_env::<Decimal>(&none);
    assert_eq!(config.max_position_per_market, 100);
    assert_eq!(config.max_total_position, 200);
    assert_eq!(config.max_daily_loss_cents, 2000);
    assert_eq!(config.max_consecutive_errors, 5);
    assert_eq!(config.cooldown_secs, 300);
    assert!(config.enabled);
    let some = BreakerSettings {
        max_position_per_market: Some("7".to_string()),
        max_total_position: Some("many".to_string()),
        max_daily_loss: Some("12.345".to_string()),
        max_consecutive_errors: Some("-1".to_string()),
        cooldown_secs: Some("60".to_string()),
        enabled: Some("False".to_string()),
    };
    let config = CircuitBreakerConfig::from_env::<Decimal>(&some);
    assert_eq!(config.max_position_per_market, 7);
    assert_eq!(config.max_total_position, 200);
    assert_eq!(config.max_daily_loss_cents, 1234);
    assert_eq!(config.max_consecutive_errors, 5);
    assert_eq!(config.cooldown_secs, 60);
    assert!(!config.enabled);
    assert!(is_switch_on("yes", "yes"));
    assert!(!is_switch_on("0", "0"));
}

#[test]
fn a_disabled_or_halted_breaker_counts_nothing() {
    let mut cb = breaker();
    cb.record_success("m", 1, 1, d("0"), 0, 0);
    cb.trip(TripReason::ManualHalt, SECOND);
    assert!(matches!(cb.can_execute("m", i64::MAX), Err(TripReason::ManualHalt)));
    cb.reset();
    cb.current_capital_cents = 2999;
    assert!(matches!(cb.can_execute("m", i64::MAX), Err(TripReason::CapitalDepleted)));
    cb.config.enabled = false;
    assert!(cb.can_execute("m", i64::MAX).is_ok());
}

#[test]
fn every_limit_refuses_with_its_reason() {
    let mut cb = breaker();
    let refused = |cb: &CircuitBreaker, n: i64| cb.can_execute("m", n).err().unwrap();
    assert!(cb.can_execute("m", 50).is_ok());
    let reason = refused(&cb, 51);
    assert_eq!(
        reason,
        TripReason::MaxPositionPerMarket { market: "m".to_string(), position: 51, limit: 50 }
    );
    assert_eq!(reason.to_text(), "Max position per market: m has 51 contracts (limit: 50)");

    cb.record_success("a", 40, 40, d("1"), 0, 0);
    cb.record_success("b", 40, 40, d("1"), 0, 0);
    let reason = refused(&cb, 21);
    assert_eq!(reason, TripReason::MaxTotalPosition { position: 101, limit: 100 });
    assert_eq!(reason.to_text(), "Max total position: 101 contracts (limit: 100)");
    assert!(cb.can_execute("a", 10).is_ok());
    assert!(cb.can_execute("a", 11).is_err());

    let mut cb = breaker();
    cb.record_success("a", 0, 0, d("-20"), 0, 0);
    assert!(cb.can_execute("m", 1).is_ok());
    cb.record_success("a", 0, 0, d("-0.01"), 0, 0);
    let reason = refused(&cb, 1);
    assert_eq!(reason, TripReason::MaxDailyLoss { loss_cents: 2001, limit_cents: 2000 });
    assert_eq!(reason.to_text(), "Max daily loss: $20.01 (limit: $20.00)");
    cb.reset_daily_pnl();
    assert!(cb.can_execute("m", 1).is_ok());

    let mut cb = breaker();
    cb.record_success("a", 0, 0, d("0"), 7001, 0);
    assert_eq!(refused(&cb, 1), TripReason::CapitalDepleted);
    assert_eq!(refused(&cb, 1).to_text(), "Capital depleted below reserve");

    let mut cb = breaker();
    cb.trip(TripReason::ManualHalt, 5);
    assert_eq!(refused(&cb, 1), TripReason::ManualHalt);
    assert_eq!(refused(&cb, 1).to_text(), "Manual halt triggered");
    cb.reset();
    assert!(cb.can_execute("m", 1).is_ok());

    let mut config = CircuitBreakerConfig::conservative();
    config.enabled = false;
    let mut cb = CircuitBreaker::new(config);
    cb.trip(TripReason::ManualHalt, 5);
    assert!(cb.is_trading_allowed());
    assert!(cb.can_execute("m", 1_000_000).is_ok());
    assert_eq!(cb.status().to_text(), "Circuit Breaker: DISABLED");
}

#[test]
fn errors_in_a_row_halt_and_a_success_forgives() {
    let mut cb = breaker();
    cb.record_error(1);
    cb.record_error(2);
    cb.record_success("m", 1, 1, d("0.02"), 98, 100);
    assert_eq!(cb.current_capital_cents, 10_002);
    assert_eq!(cb.daily_pnl_cents, 2);
    assert_eq!(cb.available_capital_cents(), 7002);
    cb.record_error(3);
    cb.record_error(4);
    assert!(cb.is_trading_allowed());
    assert_eq!(cb.status().to_text(), "[CB] OK | P&L: $0.02 | Capital: $100.02 | Pos: 1 | Errors: 2");
    cb.record_error(5);
    assert!(!cb.is_trading_allowed());
    assert_eq!(
        cb.status().to_text(),
        "[CB] HALTED (Consecutive errors: 3 (limit: 3)) | P&L: $0.02 | Capital: $100.02 | \
         Pos: 1 | Errors: 3"
    );
    assert_eq!(cb.status().market_count, 1);
    assert_eq!(cb.tripped_at, Some(5));
}

// Simulated trading

fn market(prices: &[&str]) -> TrackedMarket<Decimal> {
    TrackedMarket {
        condition_id: "c1".to_string(),
        question: "Q?".to_string(),
        slug: "q".to_string(),
        outcomes: prices
            .iter()
            .enumerate()
            .map(|(i, price)| Outcome {
                name: format!("O{}", i),
                token_id: format!("t{}", i),
                ask_price: d(price),
                ask_size: d("10"),
                bid_price: d("0"),
            })
            .collect(),
        volume_usd: d("1"),
        liquidity_usd: d("1"),
        created_at: None,
        end_date: None,
        category: MarketCategory::Sports,
        active: true,
        closed: false,
        is_new: false,
        last_updated: NOW,
        tags: vec![],
    }
}

fn draws(fill: &str, slippage: i16, loss: i16) -> ExecutionDraws<Decimal> {
    ExecutionDraws {
        delay_ms: 250,
        fill_rate: d(fill),
        slippage_cents: slippage,
        exposure_loss_cents: loss,
    }
}

#[test]
fn simulated_executions_are_booked() {
    let mut trader: PaperTrader<Decimal> = PaperTrader::new(NOW);
    let m = market(&["0.45", "0.50"]);

    let r = trader.simulate_execution(&m, draws("1", 2, 4), NOW);
    assert!(r.success);
    assert_eq!((r.filled_outcomes, r.total_outcomes), (2, 2));
    assert_eq!((r.expected_profit_cents, r.actual_profit_cents), (5, 3));
    assert_eq!(r.reason, "Success");
    assert_eq!(trader.balance_cents(), 10_003);

    let r = trader.simulate_execution(&m, draws("1", 5, 4), NOW);
    assert!(!r.success);
    assert_eq!(r.actual_profit_cents, 0);
    assert_eq!(r.reason, "Slippage exceeded profit");

    let r = trader.simulate_execution(&m, draws("0.7", 1, 4), NOW);
    assert!(!r.success);
    assert_eq!((r.filled_outcomes, r.actual_profit_cents), (1, -4));
    assert_eq!(r.reason, "Partial fill: 1/2 outcomes");
    assert_eq!(r.execution_delay_ms, 250);

    assert_eq!(trader.pnl_cents(), -1);
    assert_eq!(trader.total_trades(), 3);
    assert_eq!(trader.profitable_trades(), 1);
    assert_eq!(trader.trades[2].id, 3);
    assert_eq!(trader.trades[2].market_question, "Q?");

    let s = trader.summary();
    assert_eq!((s.wins, s.losses, s.total_trades), (1, 2, 3));
    assert_eq!((s.largest_win_cents, s.largest_loss_cents), (3, 4));
    assert_eq!(s.win_rate, d("0.333333"));
    assert_eq!(s.avg_profit_cents, d("-0.333333"));
    assert_eq!(s.avg_execution_delay_ms, d("250"));
    assert_eq!((s.balance_cents, s.pnl_cents), (9_999, -1));
    assert_eq!(
        trader.status_line(),
        "[PAPER] Day 1/14 | Balance: $99.99 | P&L: -$0.01 | Win rate: 33.3%"
    );
}

#[test]
fn draws_stay_within_the_settings() {
    let trader: PaperTrader<Decimal> = PaperTrader::new(NOW);
    for _ in 0..500 {
        let r = trader.draw_execution(d("0.8"));
        assert!((100..=500).contains(&r.delay_ms));
        assert!((0..=2).contains(&r.slippage_cents));
        assert!((1..=5).contains(&r.exposure_loss_cents));
        assert_eq!(r.fill_rate, d("0.8"));
    }
    let mut config: PaperTradingConfig<Decimal> = PaperTradingConfig::default();
    config.exec_delay_min_ms = 7;
    config.exec_delay_max_ms = 7;
    config.slippage_min_cents = -3;
    config.slippage_max_cents = -3;
    let r = PaperTrader::with_config(config, NOW).draw_execution(d("1"));
    assert_eq!((r.delay_ms, r.slippage_cents), (7, -3));
}

#[test]
fn live_trading_takes_all_four_requirements() {
    let mut trader: PaperTrader<Decimal> = PaperTrader::new(NOW);
    assert_eq!(trader.can_go_live().1, "Need 13 more days of paper trading");
    for _ in 0..13 {
        trader.next_day();
    }
    assert_eq!(trader.can_go_live().1, "Need at least 10 trades, have 0");
    for i in 0..10 {
        trader.trades.push(SimulatedTrade {
            id: i,
            timestamp: NOW,
            market_question: "Q?".to_string(),
            outcome_count: 2,
            expected_profit_cents: 5,
            actual_profit_cents: 4,
            fill_rate: d("1"),
            slippage_cents: 1,
            execution_delay_ms: 100,
            success: i < 5,
            reason: "Success".to_string(),
        });
    }
    assert_eq!(trader.can_go_live().1, "Win rate 50.0% below required 60.0%");
    trader.trades[5].success = true;
    trader.virtual_balance_cents = 10_999;
    let (ready, reason) = trader.can_go_live();
    assert!(!ready);
    assert_eq!(reason, "Simulated profit $9.99 below required $10.00");
    trader.virtual_balance_cents = 11_000;
    let (ready, reason) = trader.can_go_live();
    assert!(ready);
    assert_eq!(reason, "All requirements met!");
    trader.disable();
    assert!(!trader.is_enabled());
}

#[test]
fn kept_books_are_taken_up_again() {
    let mut trader: PaperTrader<Decimal> = PaperTrader::new(NOW);
    trader.simulate_execution(&market(&["0.45", "0.50"]), draws("1", 0, 1), NOW);
    trader.next_day();
    let state = trader.to_state();
    assert_eq!(state.trades.len(), 1);
    assert_eq!(state.started_at, NOW);
    let after = Timestamp { secs: NOW.secs + 9, nanos: 0 };
    let again = PaperTrader::from_state(state, after);
    assert_eq!(again.balance_cents(), 10_005);
    assert_eq!(again.pnl_cents(), 5);
    assert_eq!(again.day_number, 2);
    assert_eq!(again.started_at, after);
    assert_eq!(again.trades[0].reason, "Success");
    assert_eq!(again.win_rate(), d("1"));
}

// Figures

#[test]
fn executions_are_counted() {
    let mut m: Metrics<Decimal> = Metrics::new(10_000, 3);
    m.record_detection(4_000_000, MarketCategory::Crypto, 3);
    m.record_execution(2_000_000, 30, true, MarketCategory::Crypto, 3);
    m.record_execution(4_000_000, -50, false, MarketCategory::Crypto, 3);
    m.record_execution(0, 0, true, MarketCategory::Crypto, 3);
    m.record_execution(0, 10, false, MarketCategory::Crypto, 3);
    m.record_skip_liquidity();
    m.record_skip_capital();
    m.record_missed();
    m.record_ws_message(10);
    m.set_markets_tracked(12);
    assert_eq!(m.counts.arbs_attempted, 4);
    assert_eq!((m.counts.arbs_profitable, m.counts.arbs_failed), (1, 2));
    assert_eq!(m.financial.total_profit_cents, -20);
    assert_eq!((m.financial.largest_win_cents, m.financial.largest_loss_cents), (30, 50));
    assert_eq!(m.timing.detection_latency_max_ns, 4_000_000);
    assert_eq!(m.win_rate(), d("25"));
    assert_eq!(m.avg_detection_latency_ms(), d("4"));
    assert_eq!(m.avg_execution_latency_ms(), d("1.5"));
    assert_eq!(m.started_at_ns, 3);
    let r = m.generate_daily_report("PAPER", 3, NOW);
    assert_eq!(r.date, "2025-01-01");
    assert_eq!(r.mode, "PAPER");
    assert_eq!((r.markets_tracked, r.arbs_detected, r.arbs_executed), (12, 1, 4));
    assert_eq!((r.arbs_profitable, r.arbs_missed), (1, 1));
    assert_eq!(r.win_rate_pct, d("25"));
    assert_eq!(r.avg_profit_cents, d("-5"));
    assert_eq!(r.total_profit_cents, -20);
    assert_eq!(r.best_category, None);
    assert_eq!(r.recommendation, "CONTINUE PAPER TRADING (Day 3/14)");
}

#[test]
fn recommendations_follow_the_figures() {
    let say = |mode, day, rate, profit| recommend(mode, day, d(rate), profit);
    assert_eq!(say("PAPER", 13, "90", 5000), "CONTINUE PAPER TRADING (Day 13/14)");
    assert_eq!(say("PAPER", 14, "60", 1000), "READY FOR LIVE TRADING");
    assert_eq!(say("PAPER", 14, "60", 999), "EXTEND PAPER TRADING - Need more data");
    assert_eq!(say("PAPER", 14, "39.9", 5000), "REVIEW STRATEGY - Win rate too low");
    assert_eq!(say("LIVE", 1, "90", -2001), "WARNING: Consider pausing - significant losses");
    assert_eq!(say("LIVE", 1, "49.9", -2000), "MONITOR: Win rate below target");
    assert_eq!(say("LIVE", 1, "50", 0), "ON TRACK");
}

// Execution

fn request() -> ExecutionRequest {
    ExecutionRequest {
        market_id: 70,
        condition_id: "c1".to_string(),
        arb_type: ArbType::Binary,
        ask_prices: vec![45, 50],
        ask_sizes: vec![2000, 3000],
        token_ids: vec!["y".to_string(), "n".to_string()],
        expected_profit_cents: 5,
        detected_ns: 0,
    }
}

#[test]
fn sizes_follow_capital_and_liquidity() {
    let mut r = request();
    assert_eq!(calculate_position_size(&r, 7000), 20);
    assert_eq!(calculate_position_size(&r, 1000), 10);
    assert_eq!(calculate_position_size(&r, 94), 0);
    assert_eq!(calculate_position_size(&r, 0), 0);
    r.ask_sizes = vec![60_000, 60_000];
    assert_eq!(calculate_position_size(&r, 7000), 52);
    r.ask_prices = vec![10, 10];
    assert_eq!(calculate_position_size(&r, 7000), 100);
    r.ask_sizes = vec![999, 60_000];
    assert_eq!(calculate_position_size(&r, 7000), 0);
    r.ask_sizes = vec![1000, 60_000];
    assert_eq!(calculate_position_size(&r, 7000), 10);
    r.ask_prices = vec![50, 50];
    assert_eq!(calculate_position_size(&r, 7000), 0);
    r.ask_prices = vec![0, 0];
    assert_eq!(calculate_position_size(&r, 7000), 0);
}

fn cause(r: Result<ExecutionPlan, ExecutionResult>) -> String {
    r.err().unwrap().error.unwrap()
}

#[test]
fn requests_are_passed_over_for_a_cause() {
    let mut engine = ExecutionEngine::new(true);
    let cb = breaker();
    let start = 10 * SECOND;
    assert_eq!(cause(engine.process(&request(), &cb, false, 5 * SECOND - 1)), "Cooldown active");

    let mut r = request();
    r.expected_profit_cents = 0;
    assert_eq!(cause(engine.process(&r, &cb, false, start)), "Below profit threshold");
    let mut r = request();
    r.ask_sizes = vec![900, 3000];
    assert_eq!(
        cause(engine.process(&r, &cb, false, start)),
        "Insufficient liquidity or capital"
    );
    let mut halted = breaker();
    halted.trip(TripReason::ManualHalt, 0);
    assert_eq!(cause(engine.process(&request(), &halted, false, start)), "Circuit breaker");

    let plan = engine.process(&request(), &cb, false, start).ok().unwrap();
    assert_eq!(plan, ExecutionPlan { mode: ExecutionMode::DryRun, contracts: 20 });
    assert_eq!(cause(engine.process(&request(), &cb, false, start)), "Already in-flight");
    engine.release_in_flight(71);
    assert!(engine.process(&request(), &cb, false, start).is_err());
    engine.release_in_flight(70);
    assert!(engine.process(&request(), &cb, false, start).is_ok());
    let skipped = engine.process(&request(), &cb, false, start).err().unwrap();
    assert_eq!((skipped.market_id, skipped.success, skipped.contracts), (70, false, 0));
}

#[test]
fn markets_beyond_the_bits_are_never_in_flight() {
    let mut engine = ExecutionEngine::new(false);
    let mut r = request();
    r.market_id = 2048;
    for _ in 0..2 {
        let plan = engine.process(&r, &breaker(), false, 10 * SECOND).ok().unwrap();
        assert_eq!(plan.mode, ExecutionMode::Live);
    }
    let plan = engine.process(&r, &breaker(), true, 10 * SECOND).ok().unwrap();
    assert_eq!(plan.mode, ExecutionMode::Paper);
    assert!(engine.in_flight.iter().all(|w| *w == 0));
    r.market_id = 2047;
    assert!(engine.process(&r, &breaker(), false, 10 * SECOND).is_ok());
    assert_eq!(engine.in_flight[31], 1 << 63);
    engine.release_in_flight(2047);
    assert_eq!(engine.in_flight[31], 0);
}

#[test]
fn the_market_of_a_request_is_in_dollars() {
    let m: TrackedMarket<Decimal> = build_tracked_market(&request(), NOW);
    assert_eq!(m.condition_id, "c1");
    assert_eq!(m.question, "Market 70");
    assert_eq!(m.outcomes.len(), 2);
    assert_eq!(m.outcomes[1].name, "Outcome 2");
    assert_eq!(m.outcomes[1].token_id, "n");
    assert_eq!(m.outcomes[1].ask_price, d("0.50"));
    assert_eq!(m.outcomes[1].ask_size, d("30"));
    assert_eq!(m.outcomes[1].bid_price, d("0.49"));
    assert_eq!(m.volume_usd, d("100000"));
    assert_eq!(m.liquidity_usd, d("10000"));
    assert_eq!(m.category, MarketCategory::Other);
    assert!(m.active && !m.closed && !m.is_new && m.tags.is_empty());
    assert_eq!(m.potential_profit_cents(), 5);
}

#[test]
fn executions_end_with_a_result() {
    let mut engine = ExecutionEngine::new(true);
    let r = engine.finish_dry_run(&request(), 20, 3, 10);
    assert!(r.success);
    assert_eq!(r.profit_cents, 5);
    assert_eq!((r.filled_outcomes, r.total_outcomes, r.contracts), (2, 2, 20));
    assert_eq!((r.latency_ns, r.error.unwrap().as_str()), (7, "DRY_RUN"));
    assert_eq!(engine.last_execution_ns, 0);

    let simulated = SimulatedResult {
        success: false,
        filled_outcomes: 1,
        total_outcomes: 2,
        expected_profit_cents: 5,
        actual_profit_cents: -3,
        slippage_cents: 1,
        execution_delay_ms: 100,
        reason: "Partial fill: 1/2 outcomes".to_string(),
    };
    let r = engine.finish_paper(&request(), simulated, 20, 3, 10);
    assert!(!r.success);
    assert_eq!((r.profit_cents, r.contracts, r.filled_outcomes), (-3, 20, 1));
    assert_eq!(r.error.unwrap(), "Partial fill: 1/2 outcomes");
    assert_eq!(engine.last_execution_ns, 10);

    let mut cb = breaker();
    let r = engine.finish_failed(&mut cb, &request(), "no client".to_string(), 3, 11);
    assert_eq!(r.error.unwrap(), "no client");
    assert_eq!((r.success, r.contracts, r.total_outcomes), (false, 0, 2));
    assert_eq!(cb.consecutive_errors, 1);
    assert_eq!(engine.last_execution_ns, 11);
}

fn fill(token: &str, size: &str, cost: &str) -> FillResult<Decimal> {
    fill_result(token.to_string(), OrderOutcome::Filled { size: d(size), cost: d(cost) })
}

#[test]
fn full_fills_are_a_success() {
    let mut engine = ExecutionEngine::new(false);
    let mut cb = breaker();
    let fills = vec![fill("y", "20", "9.00"), fill("n", "20.9", "10.00")];
    assert_eq!(
        summarize_fills(&fills),
        FillSummary { filled_outcomes: 2, matched: 20, total_cost_cents: 1900 }
    );
    let r = engine.finish_filled(&mut cb, &request(), &fills, 0, 5);
    assert!(r.success);
    assert_eq!((r.profit_cents, r.contracts, r.filled_outcomes), (100, 20, 2));
    assert_eq!(r.error, None);
    assert_eq!(cb.current_capital_cents, 10_100);
    assert_eq!(cb.daily_pnl_cents, 100);
    assert_eq!(cb.status().total_position, 20);
}

#[test]
fn partial_fills_are_none() {
    let mut engine = ExecutionEngine::new(false);
    let mut cb = breaker();
    let failed: FillResult<Decimal> = fill_result("n".to_string(), OrderOutcome::TimedOut);
    assert_eq!((failed.filled, failed.cost, failed.success), (d("0"), d("0"), false));
    let refused: FillResult<Decimal> = fill_result("n".to_string(), OrderOutcome::Failed);
    assert!(!refused.success);
    let fills = vec![fill("y", "20", "9.00"), failed];
    let r = engine.finish_filled(&mut cb, &request(), &fills, 0, 5);
    assert!(!r.success);
    assert_eq!((r.profit_cents, r.contracts, r.filled_outcomes), (0, 0, 1));
    assert_eq!(r.error.unwrap(), "Partial fill");
    assert_eq!(cb.current_capital_cents, 10_000);
    assert_eq!(cb.status().total_position, 0);
    assert_eq!(profit_of_fills(0, 500), 0);
    assert_eq!(profit_of_fills(10, 1_050), -50);
}

#[test]
fn one_order_is_planned_for_each_outcome() {
    let orders = plan_orders::<Decimal>(&request(), 20);
    assert_eq!(orders.len(), 2);
    assert_eq!(orders[1].token_id, "n");
    assert_eq!(orders[1].price, d("0.50"));
    assert_eq!(orders[1].size, d("20"));
}

// Positions

fn bought(condition: &str, token: &str, contracts: &str, price: &str, fees: &str) -> FillRecord<Decimal> {
    FillRecord::new(
        condition,
        "Test",
        &token.to_uppercase(),
        token,
        2,
        d(contracts),
        d(price),
        d(fees),
        "order",
        NOW,
    )
}

#[test]
fn fills_reach_their_market_and_outcome() {
    let mut tracker: PositionTracker<Decimal> = PositionTracker::new(NOW);
    assert_eq!(tracker.trading_date, "2025-01-01");
    let first = bought("c1", "y", "10", "0.45", "0.05");
    assert_eq!(first.timestamp, "2025-01-01T00:00:00+00:00");
    assert_eq!((first.order_id.as_str(), first.outcome_count), ("order", 2));
    tracker.record_fill(&first, NOW);
    tracker.record_fill(&bought("c1", "n", "10", "0.50", "0"), NOW);
    tracker.record_fill(&bought("c1", "y", "10", "0.47", "0"), NOW);
    tracker.record_fill(&bought("c2", "y", "5", "0.20", "0"), NOW);
    let p = tracker.get("c1").unwrap();
    assert_eq!(p.opened_at, "2025-01-01T00:00:00+00:00");
    assert_eq!((p.description.as_str(), p.status.as_str()), ("Test", "open"));
    assert_eq!(p.outcomes.len(), 2);
    assert_eq!(p.outcomes[0].outcome_name, "Y");
    assert_eq!(p.outcomes[0].contracts, d("20"));
    assert_eq!(p.outcomes[0].cost_basis, d("9.2"));
    assert_eq!(p.outcomes[0].avg_price, d("0.46"));
    assert_eq!(p.outcomes[0].value_if_win(), d("20"));
    assert_eq!(p.outcomes[0].profit_if_win(), d("10.8"));
    assert_eq!(p.total_fees, d("0.05"));
    assert_eq!(p.total_cost(), d("14.25"));
    assert_eq!(p.total_contracts(), d("30"));
    assert_eq!(p.matched_contracts(), d("10"));
    assert_eq!(p.guaranteed_profit(), d("-4.25"));
    assert!(tracker.get("c3").is_none());
    assert_eq!(tracker.open_positions().len(), 2);
}

#[test]
fn a_resolved_market_pays_its_winner() {
    let mut tracker: PositionTracker<Decimal> = PositionTracker::new(NOW);
    tracker.record_fill(&bought("c1", "y", "10", "0.45", "0"), NOW);
    tracker.record_fill(&bought("c1", "n", "10", "0.50", "0"), NOW);
    tracker.record_fill(&bought("c2", "y", "4", "0.25", "0"), NOW);
    tracker.positions[0].resolve(1);
    assert_eq!(tracker.positions[0].status, "resolved");
    assert_eq!(tracker.positions[0].realized_pnl, Some(d("0.5")));
    let s = tracker.summary();
    assert_eq!((s.open_positions, s.resolved_positions), (1, 1));
    assert_eq!(s.realized_pnl, d("0.5"));
    assert_eq!(s.total_cost_basis, d("1"));
    assert_eq!(s.total_guaranteed_profit, d("3"));
    assert_eq!(s.total_contracts, 4);
    assert_eq!(tracker.open_positions().len(), 1);

    let mut none: MarketPosition<Decimal> = MarketPosition::new("c", "d", 0, NOW);
    none.resolve(0);
    assert_eq!(none.realized_pnl, Some(d("0")));
    let empty: OutcomePosition<Decimal> = OutcomePosition::new("Yes", "y");
    assert_eq!(empty.avg_price, d("0"));
}

#[test]
fn a_new_day_begins_with_no_profit() {
    let mut tracker: PositionTracker<Decimal> = PositionTracker::new(NOW);
    tracker.daily_realized_pnl = d("3");
    tracker.all_time_pnl = d("9");
    assert!(!tracker.resume(Timestamp { secs: NOW.secs + 86_399, nanos: 0 }));
    assert_eq!(tracker.daily_realized_pnl, d("3"));
    assert!(tracker.resume(Timestamp { secs: NOW.secs + 86_400, nanos: 0 }));
    assert_eq!(tracker.daily_realized_pnl, d("0"));
    assert_eq!(tracker.trading_date, "2025-01-02");
    assert_eq!(tracker.all_time_pnl, d("9"));
}

#[test]
fn fills_are_entered_by_the_batch() {
    let mut tracker: PositionTracker<Decimal> = PositionTracker::new(NOW);
    let mut batch: FillBatch<Decimal> = FillBatch::new();
    for i in 0..16 {
        assert_eq!(batch.push(bought("c1", "y", "1", "0.5", "0")), i == 15);
    }
    batch.flush(&mut tracker, NOW);
    assert!(batch.fills.is_empty());
    assert_eq!(tracker.get("c1").unwrap().outcomes[0].contracts, d("16"));
    batch.flush(&mut tracker, NOW);
    assert_eq!(tracker.get("c1").unwrap().outcomes[0].contracts, d("16"));
}

// A run

#[test]
fn books_open_in_paper_mode_only() {
    let modes = |paper_mode, force_live| Modes { dry_run: true, paper_mode, force_live };
    assert!(open_books::<Decimal>(modes(false, false), None, NOW).is_none());
    assert!(open_books::<Decimal>(modes(true, false), None, NOW).unwrap().is_enabled());
    let mut kept: PaperTrader<Decimal> = PaperTrader::new(NOW);
    kept.next_day();
    let books = open_books(modes(true, true), Some(kept), NOW).unwrap();
    assert!(!books.is_enabled());
    assert_eq!(books.day_number, 2);
}

#[test]
fn known_markets_are_not_taken_up_again() {
    let mut state = GlobalState::new();
    let mut second = market(&["0.3", "0.3", "0.3"]);
    second.condition_id = "c2".to_string();
    assert_eq!(track_markets(&mut state, &vec![market(&["0.4", "0.5"])], false), 1);
    assert_eq!(track_markets(&mut state, &vec![market(&["0.4", "0.5"]), second], true), 1);
    assert_eq!(state.market_count(), 2);
    let added = state.get_by_condition("c2").unwrap();
    assert_eq!(added.question, "Q?");
    assert_eq!(added.outcomes[2].name, "O2");
    assert_eq!(added.outcomes[2].token_id, "t2");
    assert_eq!(state.find_by_token("t1"), Some((1, 1)));
}

#[test]
fn the_best_opportunity_is_the_last_of_the_best() {
    let mut state = GlobalState::new();
    for (condition, token) in [("c1", "a"), ("c2", "b"), ("c3", "c")] {
        state.add_market(condition, condition, vec![("Yes".to_string(), token.to_string())]);
    }
    assert!(best_opportunity(&state.get_arb_candidates(1)).is_none());
    state.update_price("a", 90, 1);
    state.update_price("b", 90, 1);
    state.update_price("c", 95, 1);
    let found = state.get_arb_candidates(1);
    assert_eq!(best_opportunity(&found).unwrap().question, "c2");
}

#[test]
fn a_day_is_over_with_the_heartbeat_that_fills_it() {
    let mut clock = DayClock::new();
    let days: Vec<u32> = (1..=3000).filter(|_| clock.beat()).collect();
    assert_eq!(days, vec![1439, 2879]);
}

#[test]
fn the_status_shows_day_balance_profit_and_win_rate() {
    let mut trader: PaperTrader<Decimal> = PaperTrader::new(NOW);
    for _ in 0..6 {
        trader.next_day();
    }
    trader.virtual_balance_cents = 10_250;
    for i in 0..40 {
        trader.trades.push(SimulatedTrade {
            id: i,
            timestamp: NOW,
            market_question: "Q?".to_string(),
            outcome_count: 2,
            expected_profit_cents: 5,
            actual_profit_cents: 4,
            fill_rate: d("1"),
            slippage_cents: 1,
            execution_delay_ms: 100,
            success: i < 29,
            reason: "Success".to_string(),
        });
    }
    assert_eq!(
        trader.status_line(),
        "[PAPER] Day 7/14 | Balance: $102.50 | P&L: +$2.50 | Win rate: 72.5%"
    );
}

#[test]
fn any_winner_pays_at_least_the_guarantee() {
    for winner in 0..2 {
        let mut tracker: PositionTracker<Decimal> = PositionTracker::new(NOW);
        tracker.record_fill(&bought("c1", "y", "10", "0.45", "0"), NOW);
        tracker.record_fill(&bought("c1", "n", "12", "0.40", "0"), NOW);
        let position = &mut tracker.positions[0];
        let least = position.guaranteed_profit();
        position.resolve(winner);
        assert!(least.at_most(position.realized_pnl.unwrap()));
        assert_eq!(least, d("0.7"));
    }
}

#[test]
fn batches_do_not_matter() {
    let fills = || {
        vec![
            bought("c1", "y", "1", "0.5", "0"),
            bought("c2", "y", "2", "0.4", "0.01"),
            bought("c1", "n", "3", "0.3", "0"),
        ]
    };
    let mut at_once: PositionTracker<Decimal> = PositionTracker::new(NOW);
    let mut batch: FillBatch<Decimal> = FillBatch::new();
    for fill in fills() {
        batch.push(fill);
    }
    batch.flush(&mut at_once, NOW);
    let mut one_by_one: PositionTracker<Decimal> = PositionTracker::new(NOW);
    for fill in fills() {
        batch.push(fill);
        batch.flush(&mut one_by_one, NOW);
    }
    assert_eq!(format!("{:?}", at_once), format!("{:?}", one_by_one));
}

#[test]
fn simulations_are_realistic() {
    let config: PaperTradingConfig<Decimal> = PaperTradingConfig::default();
    assert_eq!((config.exec_delay_min_ms, config.exec_delay_max_ms), (100, 500));
    assert_eq!((config.fill_rate_min, config.fill_rate_max), (d("0.7"), d("1")));
    assert_eq!((config.slippage_min_cents, config.slippage_max_cents), (0, 2));
    assert_eq!(config.required_days, 14);
    assert_eq!(config.required_win_rate, d("0.6"));
    assert_eq!(config.required_profit_cents, 1000);
}

#[test]
fn full_fills_earn_what_was_expected() {
    assert_eq!(profit_of_fills(20, 20 * 95), 20 * 5);
    assert_eq!(profit_of_fills(100, 100), 9_900);
}
