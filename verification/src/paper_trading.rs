//! Simulated trading: orders that are never sent, with delays, partial fills
//! and slippage drawn at random, and the books kept of them.

use rand::Rng;
use vstd::prelude::*;
use vstd::string::*;

use crate::config::{
    PAPER_EXEC_DELAY_MAX_MS, PAPER_EXEC_DELAY_MIN_MS, PAPER_FILL_RATE_MAX_PCT,
    PAPER_FILL_RATE_MIN_PCT, PAPER_SLIPPAGE_MAX_CENTS, PAPER_SLIPPAGE_MIN_CENTS,
    PAPER_TRADING_DAYS, TOTAL_CAPITAL_CENTS,
};
use crate::market_scanner;
use crate::market_scanner::TrackedMarket;
use crate::quantity::{Decimal, Quantity};
use crate::seqs;
use crate::text;
use crate::timestamp::Timestamp;

verus! {

/// Trades before live trading.
pub const MIN_TRADES: usize = 10;

/// Win rate before live trading, in percent.
pub const REQUIRED_WIN_RATE_PCT: i64 = 60;

/// Profit before live trading, in cents ($10).
pub const REQUIRED_PROFIT_CENTS: i64 = 1000;

/// Least simulated loss in cents on outcomes that were bought in part.
pub const EXPOSURE_LOSS_MIN_CENTS: i16 = 1;

/// Most simulated loss in cents on outcomes that were bought in part.
pub const EXPOSURE_LOSS_MAX_CENTS: i16 = 5;

/// How trades are simulated, and what it takes to trade live.
#[derive(Debug)]
pub struct PaperTradingConfig<Q> {
    pub exec_delay_min_ms: u64,
    pub exec_delay_max_ms: u64,
    /// Lowest part of the outcomes that is bought.
    pub fill_rate_min: Q,
    /// Highest part of the outcomes that is bought.
    pub fill_rate_max: Q,
    pub slippage_min_cents: i16,
    pub slippage_max_cents: i16,
    /// Days before live trading.
    pub required_days: u32,
    /// Part of the trades that must have won before live trading.
    pub required_win_rate: Q,
    /// Profit before live trading.
    pub required_profit_cents: i64,
}

/// The settings that apply where nothing else is said.
pub open spec fn default_config<Q: Quantity>() -> PaperTradingConfig<Q> {
    PaperTradingConfig {
        exec_delay_min_ms: PAPER_EXEC_DELAY_MIN_MS,
        exec_delay_max_ms: PAPER_EXEC_DELAY_MAX_MS,
        fill_rate_min: Q::ratio_spec(PAPER_FILL_RATE_MIN_PCT, 100),
        fill_rate_max: Q::ratio_spec(PAPER_FILL_RATE_MAX_PCT, 100),
        slippage_min_cents: PAPER_SLIPPAGE_MIN_CENTS,
        slippage_max_cents: PAPER_SLIPPAGE_MAX_CENTS,
        required_days: PAPER_TRADING_DAYS,
        required_win_rate: Q::ratio_spec(REQUIRED_WIN_RATE_PCT, 100),
        required_profit_cents: REQUIRED_PROFIT_CENTS,
    }
}

impl<Q: Quantity> Default for PaperTradingConfig<Q> {
    fn default() -> (r: Self)
        ensures
            r == default_config::<Q>(),
    {
        PaperTradingConfig {
            exec_delay_min_ms: PAPER_EXEC_DELAY_MIN_MS,
            exec_delay_max_ms: PAPER_EXEC_DELAY_MAX_MS,
            fill_rate_min: Q::ratio(PAPER_FILL_RATE_MIN_PCT, 100),
            fill_rate_max: Q::ratio(PAPER_FILL_RATE_MAX_PCT, 100),
            slippage_min_cents: PAPER_SLIPPAGE_MIN_CENTS,
            slippage_max_cents: PAPER_SLIPPAGE_MAX_CENTS,
            required_days: PAPER_TRADING_DAYS,
            required_win_rate: Q::ratio(REQUIRED_WIN_RATE_PCT, 100),
            required_profit_cents: REQUIRED_PROFIT_CENTS,
        }
    }
}

/// The figures of one day.
#[derive(Debug)]
pub struct DailyStats<Q> {
    pub date: String,
    pub day_number: u32,
    pub arbs_detected: u64,
    pub arbs_executed: u64,
    pub arbs_profitable: u64,
    pub arbs_missed: u64,
    pub profit_cents: i64,
    pub largest_win_cents: i64,
    pub largest_loss_cents: i64,
    pub avg_detection_latency_ms: Q,
    pub balance_cents: i64,
}

impl<Q: Quantity> Clone for DailyStats<Q> {
    fn clone(&self) -> (r: Self)
        ensures
            r == *self,
    {
        DailyStats {
            date: self.date.clone(),
            day_number: self.day_number,
            arbs_detected: self.arbs_detected,
            arbs_executed: self.arbs_executed,
            arbs_profitable: self.arbs_profitable,
            arbs_missed: self.arbs_missed,
            profit_cents: self.profit_cents,
            largest_win_cents: self.largest_win_cents,
            largest_loss_cents: self.largest_loss_cents,
            avg_detection_latency_ms: self.avg_detection_latency_ms,
            balance_cents: self.balance_cents,
        }
    }
}

/// A simulated trade.
#[derive(Debug)]
pub struct SimulatedTrade<Q> {
    pub id: u64,
    pub timestamp: Timestamp,
    pub market_question: String,
    pub outcome_count: usize,
    pub expected_profit_cents: i16,
    pub actual_profit_cents: i16,
    pub fill_rate: Q,
    pub slippage_cents: i16,
    pub execution_delay_ms: u64,
    pub success: bool,
    pub reason: String,
}

impl<Q: Quantity> Clone for SimulatedTrade<Q> {
    fn clone(&self) -> (r: Self)
        ensures
            r == *self,
    {
        SimulatedTrade {
            id: self.id,
            timestamp: self.timestamp,
            market_question: self.market_question.clone(),
            outcome_count: self.outcome_count,
            expected_profit_cents: self.expected_profit_cents,
            actual_profit_cents: self.actual_profit_cents,
            fill_rate: self.fill_rate,
            slippage_cents: self.slippage_cents,
            execution_delay_ms: self.execution_delay_ms,
            success: self.success,
            reason: self.reason.clone(),
        }
    }
}

/// What came of a simulated execution.
#[derive(Debug)]
pub struct SimulatedResult {
    pub success: bool,
    pub filled_outcomes: usize,
    pub total_outcomes: usize,
    pub expected_profit_cents: i16,
    pub actual_profit_cents: i16,
    pub slippage_cents: i16,
    pub execution_delay_ms: u64,
    pub reason: String,
}

/// What was drawn at random for one execution.
#[derive(Debug)]
pub struct ExecutionDraws<Q> {
    pub delay_ms: u64,
    /// The part of the outcomes that is bought.
    pub fill_rate: Q,
    pub slippage_cents: i16,
    /// What outcomes that were bought in part lose.
    pub exposure_loss_cents: i16,
}

/// `rand::thread_rng().gen_range(low..=high)`: some number of the range. Which
/// one is left to chance; an empty range, on which it panics, is ruled out.
#[verifier::external_body]
fn draw(low: i128, high: i128) -> (r: i128)
    requires
        low <= high,
    ensures
        low <= r <= high,
{
    rand::thread_rng().gen_range(low..=high)
}

/// How many of `count` outcomes are bought at a fill rate.
pub open spec fn filled_of<Q: Quantity>(count: int, fill_rate: Q) -> int {
    Q::from_int_spec(count as i128).times_spec(fill_rate).rounded_spec(
        0,
        usize::MAX as i128,
    ) as int
}

/// The profit in cents: a loss where an outcome was not bought, else what is
/// left of the expected profit after slippage.
pub open spec fn settled_profit(
    count: int,
    filled: int,
    expected: int,
    slippage: int,
    exposure_loss: int,
) -> int {
    if filled < count {
        -exposure_loss
    } else {
        expected - slippage
    }
}

/// Whether an execution succeeds: every outcome is bought, and the expected
/// profit exceeds the slippage.
pub open spec fn settled_success(count: int, filled: int, expected: int, slippage: int) -> bool {
    filled >= count && expected > slippage
}

/// Why an execution succeeded or failed.
pub open spec fn settled_reason(count: int, filled: int, expected: int, slippage: int) -> Seq<char> {
    if filled < count {
        "Partial fill: "@ + text::decimal_text(filled as nat) + "/"@ + text::decimal_text(
            count as nat,
        ) + " outcomes"@
    } else if expected <= slippage {
        "Slippage exceeded profit"@
    } else {
        "Success"@
    }
}

/// The test for trades that succeeded.
pub open spec fn won<Q>() -> spec_fn(SimulatedTrade<Q>) -> bool {
    |t: SimulatedTrade<Q>| t.success
}

/// The profit of all trades together.
pub open spec fn total_profit<Q>(trades: Seq<SimulatedTrade<Q>>) -> int
    decreases trades.len(),
{
    if trades.len() == 0 {
        0
    } else {
        total_profit(trades.drop_last()) + trades.last().actual_profit_cents
    }
}

/// The largest profit of a trade, or 0.
pub open spec fn largest_win<Q>(trades: Seq<SimulatedTrade<Q>>) -> int
    decreases trades.len(),
{
    if trades.len() == 0 {
        0
    } else {
        let before = largest_win(trades.drop_last());
        if trades.last().actual_profit_cents > before {
            trades.last().actual_profit_cents as int
        } else {
            before
        }
    }
}

/// The largest loss of a trade, as a positive number, or 0.
pub open spec fn largest_loss<Q>(trades: Seq<SimulatedTrade<Q>>) -> int
    decreases trades.len(),
{
    if trades.len() == 0 {
        0
    } else {
        let before = largest_loss(trades.drop_last());
        if -trades.last().actual_profit_cents > before {
            -trades.last().actual_profit_cents
        } else {
            before
        }
    }
}

/// The profits of some trades, as numbers.
pub open spec fn profits<Q: Quantity>(trades: Seq<SimulatedTrade<Q>>) -> Seq<Q> {
    trades.map_values(|t: SimulatedTrade<Q>| Q::from_int_spec(t.actual_profit_cents as i128))
}

/// The delays of some trades, as numbers.
pub open spec fn delays<Q: Quantity>(trades: Seq<SimulatedTrade<Q>>) -> Seq<Q> {
    trades.map_values(|t: SimulatedTrade<Q>| Q::from_int_spec(t.execution_delay_ms as i128))
}

/// The mean of some numbers, or zero where there is none.
pub open spec fn mean<Q: Quantity>(numbers: Seq<Q>) -> Q {
    if numbers.len() == 0 {
        Q::zero_spec()
    } else {
        market_scanner::sum_up(numbers).over_spec(Q::from_int_spec(numbers.len() as i128))
    }
}

/// The part of the trades that succeeded, or zero where there is none.
pub open spec fn win_rate_of<Q: Quantity>(trades: Seq<SimulatedTrade<Q>>) -> Q {
    if trades.len() == 0 {
        Q::zero_spec()
    } else {
        Q::from_int_spec(seqs::count(trades, won()) as i128).over_spec(
            Q::from_int_spec(trades.len() as i128),
        )
    }
}

/// Whether the books speak for live trading, and what is missing where they
/// do not.
#[derive(Debug)]
pub enum Readiness<Q> {
    TooFewDays { missing: u32 },
    TooFewTrades { trades: usize },
    LowWinRate { win_rate: Q, required: Q },
    LowProfit { pnl_cents: i64, required_cents: i64 },
    Ready,
}

/// What a readiness says.
pub open spec fn readiness_text<Q: Quantity>(readiness: Readiness<Q>) -> Seq<char> {
    match readiness {
        Readiness::TooFewDays { missing } => "Need "@ + text::decimal_text(missing as nat)
            + " more days of paper trading"@,
        Readiness::TooFewTrades { trades } => "Need at least 10 trades, have "@
            + text::decimal_text(trades as nat),
        Readiness::LowWinRate { win_rate, required } => "Win rate "@ + win_rate.times_spec(
            Q::from_int_spec(100),
        ).tenths_spec() + "% below required "@ + required.times_spec(
            Q::from_int_spec(100),
        ).tenths_spec() + "%"@,
        Readiness::LowProfit { pnl_cents, required_cents } => "Simulated profit $"@
            + text::dollars_text(pnl_cents as int) + " below required $"@ + text::dollars_text(
            required_cents as int,
        ),
        Readiness::Ready => "All requirements met!"@,
    }
}

impl<Q: Quantity> Readiness<Q> {
    /// The readiness in words.
    pub fn to_text(&self) -> (r: String)
        ensures
            r@ == readiness_text(*self),
    {
        match self {
            Readiness::TooFewDays { missing } => {
                let mut s: String = "Need ".to_string();
                s.append(text::decimal(*missing as u64).as_str());
                s.append(" more days of paper trading");
                s
            },
            Readiness::TooFewTrades { trades } => {
                let mut s: String = "Need at least 10 trades, have ".to_string();
                s.append(text::decimal(*trades as u64).as_str());
                s
            },
            Readiness::LowWinRate { win_rate, required } => {
                let mut s: String = "Win rate ".to_string();
                s.append(win_rate.times(Q::from_int(100)).tenths().as_str());
                s.append("% below required ");
                s.append(required.times(Q::from_int(100)).tenths().as_str());
                s.append("%");
                s
            },
            Readiness::LowProfit { pnl_cents, required_cents } => {
                let mut s: String = "Simulated profit $".to_string();
                s.append(text::dollars(*pnl_cents).as_str());
                s.append(" below required $");
                s.append(text::dollars(*required_cents).as_str());
                s
            },
            Readiness::Ready => "All requirements met!".to_string(),
        }
    }
}

/// The books in one line.
pub open spec fn status_text<Q: Quantity>(
    day_number: u32,
    balance_cents: int,
    pnl_cents: int,
    win_rate: Q,
) -> Seq<char> {
    "[PAPER] Day "@ + text::decimal_text(day_number as nat) + "/14 | Balance: $"@
        + text::dollars_text(balance_cents) + " | P&L: "@ + text::signed_dollars_text(pnl_cents)
        + " | Win rate: "@ + win_rate.times_spec(Q::from_int_spec(100)).tenths_spec() + "%"@
}

/// The books of simulated trading.
pub struct PaperTrader<Q> {
    pub enabled: bool,
    pub virtual_balance_cents: i64,
    pub starting_balance_cents: i64,
    /// The day, counted from 1.
    pub day_number: u32,
    pub started_at: Timestamp,
    pub daily_stats: Vec<DailyStats<Q>>,
    pub trades: Vec<SimulatedTrade<Q>>,
    pub config: PaperTradingConfig<Q>,
}

/// The books as they are kept between two runs.
#[derive(Debug)]
pub struct PaperTradingState<Q> {
    pub enabled: bool,
    pub balance_cents: i64,
    pub starting_balance_cents: i64,
    pub day_number: u32,
    pub started_at: Timestamp,
    pub trades: Vec<SimulatedTrade<Q>>,
    pub daily_stats: Vec<DailyStats<Q>>,
}

impl<Q: Quantity> PaperTradingState<Q> {
    /// Whether this is what is kept of some books.
    pub open spec fn keeps(self, trader: PaperTrader<Q>) -> bool {
        &&& self.enabled == trader.enabled
        &&& self.balance_cents == trader.virtual_balance_cents
        &&& self.starting_balance_cents == trader.starting_balance_cents
        &&& self.day_number == trader.day_number
        &&& self.started_at == trader.started_at
        &&& self.trades@ == trader.trades@
        &&& self.daily_stats@ == trader.daily_stats@
    }
}

/// The books in figures.
#[derive(Debug)]
pub struct PaperTradingSummary<Q> {
    pub enabled: bool,
    pub day_number: u32,
    pub started_at: Timestamp,
    pub balance_cents: i64,
    pub pnl_cents: i64,
    pub total_trades: usize,
    pub wins: usize,
    pub losses: usize,
    pub win_rate: Q,
    pub largest_win_cents: i16,
    pub largest_loss_cents: i16,
    pub avg_profit_cents: Q,
    pub avg_execution_delay_ms: Q,
}

impl<Q: Quantity> PaperTrader<Q> {
    /// Whether these are new books, opened at `now`.
    pub open spec fn is_opened(self, config: PaperTradingConfig<Q>, now: Timestamp) -> bool {
        &&& self.enabled
        &&& self.virtual_balance_cents == TOTAL_CAPITAL_CENTS
        &&& self.starting_balance_cents == TOTAL_CAPITAL_CENTS
        &&& self.day_number == 1
        &&& self.started_at == now
        &&& self.daily_stats@ == Seq::<DailyStats<Q>>::empty()
        &&& self.trades@ == Seq::<SimulatedTrade<Q>>::empty()
        &&& self.config == config
    }

    /// Whether these books go on from what was kept, at `now`. Settings, starting
    /// balance and start are those of new books.
    pub open spec fn goes_on_from(self, state: PaperTradingState<Q>, now: Timestamp) -> bool {
        &&& self.enabled == state.enabled
        &&& self.virtual_balance_cents == state.balance_cents
        &&& self.starting_balance_cents == TOTAL_CAPITAL_CENTS
        &&& self.day_number == state.day_number
        &&& self.started_at == now
        &&& self.trades == state.trades
        &&& self.daily_stats == state.daily_stats
        &&& self.config == default_config::<Q>()
    }

    /// The profit or loss so far.
    pub open spec fn pnl(self) -> int {
        self.virtual_balance_cents - self.starting_balance_cents
    }

    /// Whether the profit or loss is within range.
    pub open spec fn pnl_fits(self) -> bool {
        i64::MIN <= self.pnl() <= i64::MAX
    }

    /// Whether the balance is the starting balance and the profits of all trades.
    pub open spec fn is_balanced(self) -> bool {
        self.pnl() == total_profit(self.trades@)
    }

    /// Whether `self` is `before` but for its balance and trades.
    pub open spec fn same_but_trades(self, before: Self) -> bool {
        &&& self.enabled == before.enabled
        &&& self.starting_balance_cents == before.starting_balance_cents
        &&& self.day_number == before.day_number
        &&& self.started_at == before.started_at
        &&& self.daily_stats == before.daily_stats
        &&& self.config == before.config
    }

    /// How the books speak for live trading.
    pub open spec fn readiness(self) -> Readiness<Q> {
        let win_rate = win_rate_of(self.trades@);
        if self.day_number < self.config.required_days {
            Readiness::TooFewDays {
                missing: (self.config.required_days - self.day_number) as u32,
            }
        } else if self.trades.len() < MIN_TRADES {
            Readiness::TooFewTrades { trades: self.trades.len() }
        } else if win_rate.below_spec(self.config.required_win_rate) {
            Readiness::LowWinRate { win_rate, required: self.config.required_win_rate }
        } else if self.pnl() < self.config.required_profit_cents {
            Readiness::LowProfit {
                pnl_cents: self.pnl() as i64,
                required_cents: self.config.required_profit_cents,
            }
        } else {
            Readiness::Ready
        }
    }

    /// Opens books with the usual settings.
    pub fn new(now: Timestamp) -> (r: Self)
        ensures
            r.is_opened(default_config(), now),
    {
        PaperTrader::with_config(PaperTradingConfig::default(), now)
    }

    /// Opens books.
    pub fn with_config(config: PaperTradingConfig<Q>, now: Timestamp) -> (r: Self)
        ensures
            r.is_opened(config, now),
    {
        PaperTrader {
            enabled: true,
            virtual_balance_cents: TOTAL_CAPITAL_CENTS as i64,
            starting_balance_cents: TOTAL_CAPITAL_CENTS as i64,
            day_number: 1,
            started_at: now,
            daily_stats: Vec::new(),
            trades: Vec::new(),
            config,
        }
    }

    /// Whether trades are simulated.
    pub fn is_enabled(&self) -> (r: bool)
        ensures
            r == self.enabled,
    {
        self.enabled
    }

    /// Ends the simulation.
    pub fn disable(&mut self)
        ensures
            *final(self) == (PaperTrader { enabled: false, ..*old(self) }),
    {
        self.enabled = false;
    }

    /// The balance in cents.
    pub fn balance_cents(&self) -> (r: i64)
        ensures
            r == self.virtual_balance_cents,
    {
        self.virtual_balance_cents
    }

    /// The profit or loss in cents.
    pub fn pnl_cents(&self) -> (r: i64)
        requires
            self.pnl_fits(),
        ensures
            r == self.pnl(),
    {
        self.virtual_balance_cents - self.starting_balance_cents
    }

    /// Draws delay, slippage and loss for one execution at the given fill rate,
    /// which is within the range of the settings.
    pub fn draw_execution(&self, fill_rate: Q) -> (r: ExecutionDraws<Q>)
        requires
            self.config.exec_delay_min_ms <= self.config.exec_delay_max_ms,
            self.config.slippage_min_cents <= self.config.slippage_max_cents,
            self.config.fill_rate_min.at_most_spec(fill_rate),
            fill_rate.at_most_spec(self.config.fill_rate_max),
        ensures
            self.config.exec_delay_min_ms <= r.delay_ms <= self.config.exec_delay_max_ms,
            self.config.slippage_min_cents <= r.slippage_cents <= self.config.slippage_max_cents,
            EXPOSURE_LOSS_MIN_CENTS <= r.exposure_loss_cents <= EXPOSURE_LOSS_MAX_CENTS,
            r.fill_rate == fill_rate,
            self.config.fill_rate_min.at_most_spec(r.fill_rate),
            r.fill_rate.at_most_spec(self.config.fill_rate_max),
    {
        let delay: i128 = draw(
            self.config.exec_delay_min_ms as i128,
            self.config.exec_delay_max_ms as i128,
        );
        let slippage: i128 = draw(
            self.config.slippage_min_cents as i128,
            self.config.slippage_max_cents as i128,
        );
        let loss: i128 = draw(EXPOSURE_LOSS_MIN_CENTS as i128, EXPOSURE_LOSS_MAX_CENTS as i128);
        ExecutionDraws {
            delay_ms: delay as u64,
            fill_rate,
            slippage_cents: slippage as i16,
            exposure_loss_cents: loss as i16,
        }
    }

    /// Books the purchase of every outcome of a market, as it comes out for
    /// what was drawn.
    pub fn simulate_execution(
        &mut self,
        market: &TrackedMarket<Q>,
        draws: ExecutionDraws<Q>,
        now: Timestamp,
    ) -> (r: SimulatedResult)
        requires
            old(self).trades.len() < usize::MAX,
            ({
                let count = market.outcomes.len() as int;
                let profit = settled_profit(
                    count,
                    filled_of(count, draws.fill_rate),
                    market_scanner::profit_cents(market@),
                    draws.slippage_cents as int,
                    draws.exposure_loss_cents as int,
                );
                &&& i16::MIN <= profit <= i16::MAX
                &&& i64::MIN <= old(self).virtual_balance_cents + profit <= i64::MAX
            }),
        ensures
            ({
                let count = market.outcomes.len() as int;
                let expected = market_scanner::profit_cents(market@);
                let filled = filled_of(count, draws.fill_rate);
                let slippage = draws.slippage_cents as int;
                &&& r.success == settled_success(count, filled, expected, slippage)
                &&& r.filled_outcomes == filled
                &&& r.total_outcomes == count
                &&& r.expected_profit_cents == expected
                &&& r.actual_profit_cents == settled_profit(
                    count,
                    filled,
                    expected,
                    slippage,
                    draws.exposure_loss_cents as int,
                )
                &&& r.slippage_cents == slippage
                &&& r.execution_delay_ms == draws.delay_ms
                &&& r.reason@ == settled_reason(count, filled, expected, slippage)
            }),
            final(self).same_but_trades(*old(self)),
            old(self).is_balanced() ==> final(self).is_balanced(),
            final(self).virtual_balance_cents == old(self).virtual_balance_cents
                + r.actual_profit_cents,
            final(self).trades@ == old(self).trades@.push(
                (SimulatedTrade {
                    id: (old(self).trades.len() + 1) as u64,
                    timestamp: now,
                    market_question: market.question,
                    outcome_count: market.outcomes.len(),
                    expected_profit_cents: r.expected_profit_cents,
                    actual_profit_cents: r.actual_profit_cents,
                    fill_rate: draws.fill_rate,
                    slippage_cents: draws.slippage_cents,
                    execution_delay_ms: draws.delay_ms,
                    success: r.success,
                    reason: r.reason,
                }),
            ),
    {
        let outcome_count: usize = market.outcomes.len();
        let expected_profit: i16 = market.potential_profit_cents();
        let slippage: i16 = draws.slippage_cents;
        let filled_outcomes: usize = Q::from_int(outcome_count as i128).times(
            draws.fill_rate,
        ).rounded(0, usize::MAX as i128) as usize;
        let success: bool;
        let actual_profit: i16;
        let reason: String;
        if filled_outcomes < outcome_count {
            success = false;
            actual_profit = -draws.exposure_loss_cents;
            let mut s: String = "Partial fill: ".to_string();
            s.append(text::decimal(filled_outcomes as u64).as_str());
            s.append("/");
            s.append(text::decimal(outcome_count as u64).as_str());
            s.append(" outcomes");
            reason = s;
        } else if expected_profit <= slippage {
            success = false;
            actual_profit = expected_profit - slippage;
            reason = "Slippage exceeded profit".to_string();
        } else {
            success = true;
            actual_profit = expected_profit - slippage;
            reason = "Success".to_string();
        }
        self.virtual_balance_cents = self.virtual_balance_cents + actual_profit as i64;
        let trade = SimulatedTrade {
            id: self.trades.len() as u64 + 1,
            timestamp: now,
            market_question: market.question.clone(),
            outcome_count,
            expected_profit_cents: expected_profit,
            actual_profit_cents: actual_profit,
            fill_rate: draws.fill_rate,
            slippage_cents: slippage,
            execution_delay_ms: draws.delay_ms,
            success,
            reason: reason.clone(),
        };
        let ghost before = self.trades@;
        self.trades.push(trade);
        assert(self.trades@.drop_last() =~= before);
        SimulatedResult {
            success,
            filled_outcomes,
            total_outcomes: outcome_count,
            expected_profit_cents: expected_profit,
            actual_profit_cents: actual_profit,
            slippage_cents: slippage,
            execution_delay_ms: draws.delay_ms,
            reason,
        }
    }

    /// The part of the trades that succeeded; zero where there is none.
    pub fn win_rate(&self) -> (r: Q)
        ensures
            r == win_rate_of(self.trades@),
    {
        if self.trades.len() == 0 {
            return Q::zero();
        }
        let wins: usize = self.profitable_trades();
        Q::from_int(wins as i128).over(Q::from_int(self.trades.len() as i128))
    }

    /// How many trades there were.
    pub fn total_trades(&self) -> (r: usize)
        ensures
            r == self.trades.len(),
    {
        self.trades.len()
    }

    /// How many trades succeeded.
    pub fn profitable_trades(&self) -> (r: usize)
        ensures
            r == seqs::count(self.trades@, won()),
            r <= self.trades.len(),
    {
        let mut wins: usize = 0;
        let mut i: usize = 0;
        assert(self.trades@.take(0) =~= Seq::empty());
        while i < self.trades.len()
            invariant
                wins <= i <= self.trades.len(),
                wins == seqs::count(self.trades@.take(i as int), won()),
            decreases self.trades.len() - i,
        {
            proof {
                seqs::lemma_count_next(self.trades@, won(), i as int);
            }
            if self.trades[i].success {
                wins = wins + 1;
            }
            i = i + 1;
        }
        assert(self.trades@.take(i as int) =~= self.trades@);
        wins
    }

    /// Whether the books speak for live trading, and why or why not.
    pub fn assess_readiness(&self) -> (r: Readiness<Q>)
        requires
            self.pnl_fits(),
        ensures
            r == self.readiness(),
    {
        if self.day_number < self.config.required_days {
            return Readiness::TooFewDays { missing: self.config.required_days - self.day_number };
        }
        if self.trades.len() < MIN_TRADES {
            return Readiness::TooFewTrades { trades: self.trades.len() };
        }
        let win_rate: Q = self.win_rate();
        if win_rate.below(self.config.required_win_rate) {
            return Readiness::LowWinRate { win_rate, required: self.config.required_win_rate };
        }
        let pnl: i64 = self.pnl_cents();
        if pnl < self.config.required_profit_cents {
            return Readiness::LowProfit {
                pnl_cents: pnl,
                required_cents: self.config.required_profit_cents,
            };
        }
        Readiness::Ready
    }

    /// Whether the books speak for live trading, with the reason in words.
    pub fn can_go_live(&self) -> (r: (bool, String))
        requires
            self.pnl_fits(),
        ensures
            r.0 == (self.readiness() is Ready),
            r.1@ == readiness_text(self.readiness()),
    {
        let readiness: Readiness<Q> = self.assess_readiness();
        let ready: bool = match readiness {
            Readiness::Ready => true,
            _ => false,
        };
        (ready, readiness.to_text())
    }

    /// Begins the next day.
    pub fn next_day(&mut self)
        ensures
            *final(self) == (PaperTrader {
                day_number: old(self).day_number.wrapping_add(1),
                ..*old(self)
            }),
    {
        self.day_number = self.day_number.wrapping_add(1);
    }

    fn largest(&self) -> (r: (i16, i16))
        requires
            forall|i: int|
                0 <= i < self.trades.len() ==> (#[trigger] self.trades@[i]).actual_profit_cents
                    > i16::MIN,
        ensures
            r.0 == largest_win(self.trades@),
            r.1 == largest_loss(self.trades@),
    {
        let mut win: i16 = 0;
        let mut loss: i16 = 0;
        let mut i: usize = 0;
        assert(self.trades@.take(0) =~= Seq::empty());
        while i < self.trades.len()
            invariant
                forall|i: int|
                    0 <= i < self.trades.len() ==> (#[trigger] self.trades@[i]).actual_profit_cents
                        > i16::MIN,
                i <= self.trades.len(),
                win == largest_win(self.trades@.take(i as int)),
                loss == largest_loss(self.trades@.take(i as int)),
                win >= 0,
                loss >= 0,
            decreases self.trades.len() - i,
        {
            assert(self.trades@.take(i + 1).drop_last() =~= self.trades@.take(i as int));
            let profit: i16 = self.trades[i].actual_profit_cents;
            if profit > win {
                win = profit;
            }
            if -profit > loss {
                loss = -profit;
            }
            i = i + 1;
        }
        assert(self.trades@.take(i as int) =~= self.trades@);
        (win, loss)
    }

    fn averages(&self) -> (r: (Q, Q))
        ensures
            r.0 == mean(profits(self.trades@)),
            r.1 == mean(delays(self.trades@)),
    {
        let n: usize = self.trades.len();
        let ghost p = profits(self.trades@);
        let ghost d = delays(self.trades@);
        if n == 0 {
            return (Q::zero(), Q::zero());
        }
        let mut profit: Q = Q::zero();
        let mut delay: Q = Q::zero();
        let mut i: usize = 0;
        assert(p.take(0) =~= Seq::empty());
        assert(d.take(0) =~= Seq::empty());
        while i < n
            invariant
                n == self.trades.len(),
                p == profits(self.trades@),
                d == delays(self.trades@),
                i <= n,
                profit == market_scanner::sum_up(p.take(i as int)),
                delay == market_scanner::sum_up(d.take(i as int)),
            decreases n - i,
        {
            assert(p.take(i + 1).drop_last() =~= p.take(i as int));
            assert(d.take(i + 1).drop_last() =~= d.take(i as int));
            profit = profit.plus(Q::from_int(self.trades[i].actual_profit_cents as i128));
            delay = delay.plus(Q::from_int(self.trades[i].execution_delay_ms as i128));
            i = i + 1;
        }
        assert(p.take(i as int) =~= p);
        assert(d.take(i as int) =~= d);
        (profit.over(Q::from_int(n as i128)), delay.over(Q::from_int(n as i128)))
    }

    /// The books in figures.
    pub fn summary(&self) -> (r: PaperTradingSummary<Q>)
        requires
            self.pnl_fits(),
            forall|i: int|
                0 <= i < self.trades.len() ==> (#[trigger] self.trades@[i]).actual_profit_cents
                    > i16::MIN,
        ensures
            r.enabled == self.enabled,
            r.day_number == self.day_number,
            r.started_at == self.started_at,
            r.balance_cents == self.virtual_balance_cents,
            r.pnl_cents == self.pnl(),
            r.total_trades == self.trades.len(),
            r.wins == seqs::count(self.trades@, won()),
            r.wins + r.losses == self.trades.len(),
            r.win_rate == win_rate_of(self.trades@),
            r.largest_win_cents == largest_win(self.trades@),
            r.largest_loss_cents == largest_loss(self.trades@),
            r.avg_profit_cents == mean(profits(self.trades@)),
            r.avg_execution_delay_ms == mean(delays(self.trades@)),
    {
        let wins: usize = self.profitable_trades();
        let (largest_win_cents, largest_loss_cents) = self.largest();
        let (avg_profit_cents, avg_execution_delay_ms) = self.averages();
        PaperTradingSummary {
            enabled: self.enabled,
            day_number: self.day_number,
            started_at: self.started_at,
            balance_cents: self.virtual_balance_cents,
            pnl_cents: self.pnl_cents(),
            total_trades: self.trades.len(),
            wins,
            losses: self.trades.len() - wins,
            win_rate: self.win_rate(),
            largest_win_cents,
            largest_loss_cents,
            avg_profit_cents,
            avg_execution_delay_ms,
        }
    }

    /// The books in one line.
    pub fn status_line(&self) -> (r: String)
        requires
            self.pnl_fits(),
        ensures
            r@ == status_text(
                self.day_number,
                self.virtual_balance_cents as int,
                self.pnl(),
                win_rate_of(self.trades@),
            ),
    {
        let pnl: i64 = self.pnl_cents();
        let mut s: String = "[PAPER] Day ".to_string();
        s.append(text::decimal(self.day_number as u64).as_str());
        s.append("/14 | Balance: $");
        s.append(text::dollars(self.virtual_balance_cents).as_str());
        s.append(" | P&L: ");
        s.append(text::signed_dollars(pnl).as_str());
        s.append(" | Win rate: ");
        s.append(self.win_rate().times(Q::from_int(100)).tenths().as_str());
        s.append("%");
        s
    }

    /// The books as they are kept between two runs.
    pub fn to_state(&self) -> (r: PaperTradingState<Q>)
        ensures
            r.keeps(*self),
    {
        let mut trades: Vec<SimulatedTrade<Q>> = Vec::new();
        let mut i: usize = 0;
        while i < self.trades.len()
            invariant
                i <= self.trades.len(),
                trades@ == self.trades@.take(i as int),
            decreases self.trades.len() - i,
        {
            trades.push(self.trades[i].clone());
            i = i + 1;
        }
        let mut daily_stats: Vec<DailyStats<Q>> = Vec::new();
        let mut j: usize = 0;
        while j < self.daily_stats.len()
            invariant
                j <= self.daily_stats.len(),
                daily_stats@ == self.daily_stats@.take(j as int),
            decreases self.daily_stats.len() - j,
        {
            daily_stats.push(self.daily_stats[j].clone());
            j = j + 1;
        }
        assert(trades@ =~= self.trades@);
        assert(daily_stats@ =~= self.daily_stats@);
        PaperTradingState {
            enabled: self.enabled,
            balance_cents: self.virtual_balance_cents,
            starting_balance_cents: self.starting_balance_cents,
            day_number: self.day_number,
            started_at: self.started_at,
            trades,
            daily_stats,
        }
    }

    /// Goes on from kept books. Settings, starting balance and start are those of
    /// new books.
    pub fn from_state(state: PaperTradingState<Q>, now: Timestamp) -> (r: Self)
        ensures
            r.goes_on_from(state, now),
    {
        let mut trader = PaperTrader::new(now);
        trader.enabled = state.enabled;
        trader.virtual_balance_cents = state.balance_cents;
        trader.day_number = state.day_number;
        trader.trades = state.trades;
        trader.daily_stats = state.daily_stats;
        trader
    }
}

/// A simulated execution succeeds exactly where it brings a profit, whatever
/// was drawn.
pub proof fn law_success_is_profit(
    count: int,
    filled: int,
    expected: int,
    slippage: int,
    exposure_loss: int,
)
    requires
        exposure_loss >= EXPOSURE_LOSS_MIN_CENTS,
    ensures
        settled_success(count, filled, expected, slippage) == (settled_profit(
            count,
            filled,
            expected,
            slippage,
            exposure_loss,
        ) > 0),
{
}

/// New books are balanced.
pub proof fn law_new_books_are_balanced<Q: Quantity>(
    trader: PaperTrader<Q>,
    config: PaperTradingConfig<Q>,
    now: Timestamp,
)
    requires
        trader.is_opened(config, now),
    ensures
        trader.is_balanced(),
        trader.pnl() == 0,
        trader.pnl_fits(),
{
}

/// Live trading is open exactly where all four requirements are met: days,
/// trades, win rate and profit.
pub proof fn law_ready_means_all_requirements<Q: Quantity>(trader: PaperTrader<Q>)
    ensures
        trader.readiness() is Ready <==> {
            &&& trader.day_number >= trader.config.required_days
            &&& trader.trades.len() >= MIN_TRADES
            &&& !win_rate_of(trader.trades@).below_spec(trader.config.required_win_rate)
            &&& trader.pnl() >= trader.config.required_profit_cents
        },
{
}

/// Books that were kept and taken up again tell the same profit and stand as
/// near to live trading, where they had the usual capital and settings.
pub proof fn law_kept_books_go_on<Q: Quantity>(
    trader: PaperTrader<Q>,
    state: PaperTradingState<Q>,
    again: PaperTrader<Q>,
    now: Timestamp,
)
    requires
        trader.starting_balance_cents == TOTAL_CAPITAL_CENTS,
        trader.config == default_config::<Q>(),
        state.keeps(trader),
        again.goes_on_from(state, now),
    ensures
        again.pnl() == trader.pnl(),
        again.readiness() == trader.readiness(),
        again.is_balanced() == trader.is_balanced(),
        again.enabled == trader.enabled,
{
}

/// The largest win and the largest loss bound the profit of every trade.
pub proof fn law_largest_bound_profits<Q: Quantity>(trades: Seq<SimulatedTrade<Q>>, i: int)
    requires
        0 <= i < trades.len(),
    ensures
        -largest_loss(trades) <= trades[i].actual_profit_cents <= largest_win(trades),
    decreases trades.len(),
{
    if i < trades.len() - 1 {
        law_largest_bound_profits(trades.drop_last(), i);
    } else {
        lemma_largest_not_negative(trades.drop_last());
    }
}

proof fn lemma_largest_not_negative<Q: Quantity>(trades: Seq<SimulatedTrade<Q>>)
    ensures
        largest_win(trades) >= 0,
        largest_loss(trades) >= 0,
    decreases trades.len(),
{
    if trades.len() > 0 {
        lemma_largest_not_negative(trades.drop_last());
    }
}

/// As many outcomes are bought as come nearest to the fill rate, halves up; at a
/// rate of one that is all of them, and two outcomes are both bought from three
/// quarters on.
pub proof fn law_fills_are_nearest_to_the_rate(count: int, fill_rate: Decimal)
    requires
        0 <= count <= 1_000_000_000,
        0 <= fill_rate.units <= 1_000_000,
    ensures
        ({
            let filled = filled_of(count, fill_rate);
            &&& filled * 1_000_000 - 500_000 <= count * fill_rate.units < filled * 1_000_000
                + 500_000
            &&& fill_rate.units == 1_000_000 ==> filled == count
            &&& count == 2 && fill_rate.units >= 750_000 ==> filled == 2
        }),
{
    let n = Decimal::from_int_spec(count as i128);
    assert(n.units == count * 1_000_000);
    let u = fill_rate.units as int;
    assert(n.units * u == (count * u) * 1_000_000) by (nonlinear_arith)
        requires
            n.units == count * 1_000_000,
    ;
    assert(0 <= count * u <= 1_000_000_000_000_000) by (nonlinear_arith)
        requires
            0 <= count <= 1_000_000_000,
            0 <= u <= 1_000_000,
    ;
    assert(n.times_spec(fill_rate).units == count * u);
    assert(filled_of(count, fill_rate) == (count * u + 500_000) / 1_000_000);
    assert(u == 1_000_000 ==> count * u == count * 1_000_000) by (nonlinear_arith);
    assert(count == 2 ==> count * u == 2 * u) by (nonlinear_arith);
}

/// Where an outcome is missing, the trade loses what was drawn, whatever the
/// profit was to be; where none is, it brings the expected profit less the
/// slippage, so that each cent of slippage costs a cent. It succeeds exactly
/// where all outcomes were bought and that is more than nothing.
pub proof fn law_settlement(
    count: int,
    filled: int,
    expected: int,
    slippage: int,
    exposure_loss: int,
    more: int,
)
    ensures
        filled < count ==> settled_profit(count, filled, expected, slippage, exposure_loss)
            + exposure_loss == 0,
        filled >= count ==> settled_profit(count, filled, expected, slippage, exposure_loss)
            + slippage == expected,
        filled >= count ==> settled_profit(count, filled, expected, slippage + more, exposure_loss)
            == settled_profit(count, filled, expected, slippage, exposure_loss) - more,
        settled_success(count, filled, expected, slippage) <==> filled >= count && expected
            - slippage > 0,
{
}

/// The reason tells success, partial fills and slippage apart.
pub proof fn law_reason_tells_what_happened(count: int, filled: int, expected: int, slippage: int)
    requires
        0 <= filled,
        0 <= count,
    ensures
        ({
            let reason = settled_reason(count, filled, expected, slippage);
            &&& settled_success(count, filled, expected, slippage) ==> reason == "Success"@
            &&& filled >= count && expected <= slippage ==> reason == "Slippage exceeded profit"@
            &&& filled < count ==> reason == "Partial fill: "@ + text::decimal_text(filled as nat)
                + "/"@ + text::decimal_text(count as nat) + " outcomes"@
        }),
{
}

/// The profits of trades add up, from nothing.
pub proof fn law_profits_add_up<Q>(trades: Seq<SimulatedTrade<Q>>, trade: SimulatedTrade<Q>)
    ensures
        total_profit(trades.push(trade)) == total_profit(trades) + trade.actual_profit_cents,
        total_profit(Seq::<SimulatedTrade<Q>>::empty()) == 0,
{
    assert(trades.push(trade).drop_last() =~= trades);
}

/// The largest win and the largest loss are those of some trade, or nothing.
pub proof fn law_largest_are_of_trades<Q>(trades: Seq<SimulatedTrade<Q>>)
    ensures
        largest_win(trades) == 0 || exists|i: int|
            0 <= i < trades.len() && (#[trigger] trades[i]).actual_profit_cents == largest_win(
                trades,
            ),
        largest_loss(trades) == 0 || exists|i: int|
            0 <= i < trades.len() && -(#[trigger] trades[i]).actual_profit_cents == largest_loss(
                trades,
            ),
    decreases trades.len(),
{
    if trades.len() > 0 {
        let front = trades.drop_last();
        law_largest_are_of_trades(front);
        let last = trades.len() - 1;
        if largest_win(trades) != 0 {
            if largest_win(trades) == largest_win(front) {
                let i = choose|i: int|
                    0 <= i < front.len() && (#[trigger] front[i]).actual_profit_cents
                        == largest_win(front);
                assert(trades[i].actual_profit_cents == largest_win(trades));
            } else {
                assert(trades[last].actual_profit_cents == largest_win(trades));
            }
        }
        if largest_loss(trades) != 0 {
            if largest_loss(trades) == largest_loss(front) {
                let i = choose|i: int|
                    0 <= i < front.len() && -(#[trigger] front[i]).actual_profit_cents
                        == largest_loss(front);
                assert(-trades[i].actual_profit_cents == largest_loss(trades));
            } else {
                assert(-trades[last].actual_profit_cents == largest_loss(trades));
            }
        }
    }
}

/// The win rate is the number of trades that succeeded over that of all trades,
/// to the millionth below.
pub proof fn law_win_rate_is_wins_over_trades(trades: Seq<SimulatedTrade<Decimal>>)
    requires
        trades.len() <= 1_000_000_000,
    ensures
        trades.len() == 0 ==> win_rate_of(trades).units == 0,
        trades.len() > 0 ==> win_rate_of(trades).units * trades.len() <= trades.filter(
            |t: SimulatedTrade<Decimal>| t.success,
        ).len() * 1_000_000 < (win_rate_of(trades).units + 1) * trades.len(),
{
    let test = |t: SimulatedTrade<Decimal>| t.success;
    assert(won::<Decimal>() =~= test);
    seqs::law_count_is_of_those_that_pass(trades, test);
    seqs::lemma_count_all(trades, test);
    if trades.len() > 0 {
        let wins = Decimal::from_int_spec(seqs::count(trades, won()) as i128);
        let all = Decimal::from_int_spec(trades.len() as i128);
        let w = seqs::count(trades, won()) as int;
        let n = trades.len() as int;
        assert(wins.units == w * 1_000_000);
        assert(all.units == n * 1_000_000);
        let r = win_rate_of(trades).units as int;
        let q = (wins.units * 1_000_000) / (n * 1_000_000);
        assert(0 <= q <= 1_000_000 && q * n <= w * 1_000_000 < (q + 1) * n) by (nonlinear_arith)
            requires
                q == (wins.units * 1_000_000) / (n * 1_000_000),
                wins.units == w * 1_000_000,
                0 <= w <= n,
                n > 0,
        ;
        assert(r == q);
    }
}

/// With the usual settings live trading is open exactly after 14 days, with ten
/// trades or more, of which six in ten succeeded, and $10 of profit or more.
pub proof fn law_usual_way_to_live_trading(trader: PaperTrader<Decimal>)
    requires
        trader.config == default_config::<Decimal>(),
        trader.trades.len() <= 1_000_000_000,
    ensures
        trader.readiness() is Ready <==> {
            &&& trader.day_number >= 14
            &&& trader.trades.len() >= 10
            &&& 10 * trader.trades@.filter(|t: SimulatedTrade<Decimal>| t.success).len() >= 6
                * trader.trades.len()
            &&& trader.virtual_balance_cents - trader.starting_balance_cents >= 1000
        },
{
    let trades = trader.trades@;
    law_win_rate_is_wins_over_trades(trades);
    let required = Decimal::ratio_spec(60, 100);
    assert(required.units == 600_000);
    if trades.len() > 0 {
        let r = win_rate_of(trades).units as int;
        let n = trades.len() as int;
        let w = trades.filter(|t: SimulatedTrade<Decimal>| t.success).len() as int;
        assert(r >= 600_000 <==> 10 * w >= 6 * n) by (nonlinear_arith)
            requires
                r * n <= w * 1_000_000 < (r + 1) * n,
                n > 0,
        ;
    }
}

/// What is missing for live trading is told in order: days, trades, win rate,
/// profit; each with how much there is or how much is missing.
pub proof fn law_what_is_missing_is_told<Q: Quantity>(trader: PaperTrader<Q>)
    requires
        trader.pnl_fits(),
    ensures
        match trader.readiness() {
            Readiness::TooFewDays { missing } => missing > 0 && trader.day_number + missing
                == trader.config.required_days,
            Readiness::TooFewTrades { trades } => trader.day_number >= trader.config.required_days
                && trades == trader.trades.len() && trades < 10,
            Readiness::LowWinRate { win_rate, required } => trader.day_number
                >= trader.config.required_days && trader.trades.len() >= 10 && win_rate
                == win_rate_of(trader.trades@) && required == trader.config.required_win_rate
                && win_rate.below_spec(required),
            Readiness::LowProfit { pnl_cents, required_cents } => trader.day_number
                >= trader.config.required_days && trader.trades.len() >= 10 && pnl_cents
                == trader.virtual_balance_cents - trader.starting_balance_cents && required_cents
                == trader.config.required_profit_cents && pnl_cents < required_cents,
            Readiness::Ready => true,
        },
{
}

/// The usual settings: delays of 100 to 500 ms, fills of 70 to 100 percent, up to
/// two cents of slippage.
pub proof fn law_usual_settings(rate: Decimal)
    ensures
        ({
            let config = default_config::<Decimal>();
            &&& 100 == config.exec_delay_min_ms
            &&& config.exec_delay_max_ms == 500
            &&& config.slippage_min_cents == 0
            &&& config.slippage_max_cents == 2
            &&& config.fill_rate_min.at_most_spec(rate) && rate.at_most_spec(config.fill_rate_max)
                <==> 700_000 <= rate.units <= 1_000_000
        }),
{
    assert(Decimal::ratio_spec(70, 100).units == 700_000);
    assert(Decimal::ratio_spec(100, 100).units == 1_000_000);
}

proof fn lemma_profits_sum(trades: Seq<SimulatedTrade<Decimal>>)
    requires
        trades.len() <= 1_000_000,
    ensures
        -40_000 * trades.len() <= total_profit(trades) <= 40_000 * trades.len(),
        market_scanner::sum_up(profits::<Decimal>(trades)).units == total_profit(trades)
            * 1_000_000,
    decreases trades.len(),
{
    if trades.len() > 0 {
        let front = trades.drop_last();
        lemma_profits_sum(front);
        assert(profits::<Decimal>(trades).drop_last() =~= profits::<Decimal>(front));
        assert(profits::<Decimal>(trades).last() == Decimal::from_int_spec(
            trades.last().actual_profit_cents as i128,
        ));
    } else {
        assert(profits::<Decimal>(trades) =~= Seq::empty());
    }
}

/// The mean profit is that of all trades over their number, to the millionth of
/// a cent toward zero.
pub proof fn law_mean_profit_is_profit_over_trades(trades: Seq<SimulatedTrade<Decimal>>)
    requires
        0 < trades.len() <= 1_000_000,
    ensures
        ({
            let mean_units = mean(profits::<Decimal>(trades)).units;
            let n = trades.len();
            &&& total_profit(trades) >= 0 ==> mean_units * n <= total_profit(trades) * 1_000_000 < (
            mean_units + 1) * n
            &&& total_profit(trades) < 0 ==> (mean_units - 1) * n < total_profit(trades)
                * 1_000_000 <= mean_units * n
        }),
{
    lemma_profits_sum(trades);
    let sum = market_scanner::sum_up(profits::<Decimal>(trades));
    let n = trades.len() as int;
    let all = Decimal::from_int_spec(n as i128);
    assert(all.units == n * 1_000_000);
    let t = total_profit(trades);
    let m = if t >= 0 {
        t
    } else {
        -t
    };
    let q = (m * 1_000_000 * 1_000_000) / (n * 1_000_000);
    assert(0 <= q <= m * 1_000_000 && q * n <= m * 1_000_000 < (q + 1) * n) by (nonlinear_arith)
        requires
            q == (m * 1_000_000 * 1_000_000) / (n * 1_000_000),
            m >= 0,
            n > 0,
    ;
    assert(profits::<Decimal>(trades).len() == n);
    if t >= 0 {
        assert(mean(profits::<Decimal>(trades)).units == q);
    } else {
        assert(-(sum.units * 1_000_000) == m * 1_000_000 * 1_000_000);
        assert(mean(profits::<Decimal>(trades)).units == -q);
        assert((-q - 1) * n == -((q + 1) * n)) by (nonlinear_arith);
        assert((-q) * n == -(q * n)) by (nonlinear_arith);
    }
}

/// The mean delay, where each is an hour at most, is that of all trades over
/// their number, to the millionth of a millisecond below.
pub proof fn law_mean_delay_is_delay_over_trades(trades: Seq<SimulatedTrade<Decimal>>, total_ms: int)
    requires
        0 < trades.len() <= 1_000_000,
        forall|i: int|
            0 <= i < trades.len() ==> (#[trigger] trades[i]).execution_delay_ms <= 3_600_000,
        total_ms == trades.fold_left(
            0,
            |sum: int, t: SimulatedTrade<Decimal>| sum + t.execution_delay_ms,
        ),
    ensures
        ({
            let mean_units = mean(delays::<Decimal>(trades)).units;
            mean_units * trades.len() <= total_ms * 1_000_000 < (mean_units + 1) * trades.len()
        }),
{
    lemma_delays_sum(trades);
    let sum = market_scanner::sum_up(delays::<Decimal>(trades));
    let n = trades.len() as int;
    let all = Decimal::from_int_spec(n as i128);
    assert(all.units == n * 1_000_000);
    let q = (total_ms * 1_000_000 * 1_000_000) / (n * 1_000_000);
    assert(0 <= q <= total_ms * 1_000_000 && q * n <= total_ms * 1_000_000 < (q + 1) * n)
        by (nonlinear_arith)
        requires
            q == (total_ms * 1_000_000 * 1_000_000) / (n * 1_000_000),
            total_ms >= 0,
            n > 0,
    ;
    assert(delays::<Decimal>(trades).len() == n);
    assert(mean(delays::<Decimal>(trades)).units == q);
}

proof fn lemma_delays_sum(trades: Seq<SimulatedTrade<Decimal>>)
    requires
        trades.len() <= 1_000_000,
        forall|i: int|
            0 <= i < trades.len() ==> (#[trigger] trades[i]).execution_delay_ms <= 3_600_000,
    ensures
        ({
            let total_ms = trades.fold_left(
                0,
                |sum: int, t: SimulatedTrade<Decimal>| sum + t.execution_delay_ms,
            );
            &&& 0 <= total_ms <= 3_600_000 * trades.len()
            &&& market_scanner::sum_up(delays::<Decimal>(trades)).units == total_ms * 1_000_000
        }),
    decreases trades.len(),
{
    reveal(Seq::fold_left);
    if trades.len() > 0 {
        let front = trades.drop_last();
        assert forall|i: int| 0 <= i < front.len() implies (
        #[trigger] front[i]).execution_delay_ms <= 3_600_000 by {
            assert(trades[i].execution_delay_ms <= 3_600_000);
        }
        lemma_delays_sum(front);
        assert(trades[trades.len() - 1].execution_delay_ms <= 3_600_000);
        assert(delays::<Decimal>(trades).drop_last() =~= delays::<Decimal>(front));
        assert(delays::<Decimal>(trades).last() == Decimal::from_int_spec(
            trades.last().execution_delay_ms as i128,
        ));
    } else {
        assert(delays::<Decimal>(trades) =~= Seq::empty());
    }
}

/// Books that were kept and taken up again hold the same trades, days and
/// balance.
pub proof fn law_kept_books_lose_nothing<Q: Quantity>(
    trader: PaperTrader<Q>,
    state: PaperTradingState<Q>,
    again: PaperTrader<Q>,
    now: Timestamp,
)
    requires
        state.keeps(trader),
        again.goes_on_from(state, now),
    ensures
        again.trades@ == trader.trades@,
        again.daily_stats@ == trader.daily_stats@,
        again.day_number == trader.day_number,
        again.virtual_balance_cents == trader.virtual_balance_cents,
        again.enabled == trader.enabled,
        state.starting_balance_cents == trader.starting_balance_cents,
        state.started_at == trader.started_at,
{
}

} // verus!
