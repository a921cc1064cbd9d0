//! Figures on how the bot is doing: latencies, counts, profits, and the report
//! made of them every day.

use vstd::prelude::*;
use vstd::string::*;

use crate::config::MarketCategory;
use crate::quantity::{Decimal, Quantity};
use crate::text;
use crate::timestamp;
use crate::timestamp::Timestamp;

verus! {

/// Days of paper trading that the report asks for.
pub const REPORT_PAPER_DAYS: u32 = 14;

/// Profit in cents from which on the report speaks for live trading.
pub const REPORT_READY_PROFIT_CENTS: i64 = 1000;

/// Profit in cents below which the report warns.
pub const REPORT_WARNING_CENTS: i64 = -2000;

/// The larger of two numbers.
pub open spec fn larger(a: int, b: int) -> int {
    if a > b {
        a
    } else {
        b
    }
}

/// Times, in nanoseconds: their sums, how many there were, and the longest.
/// Sums and counts wrap around.
#[derive(Clone, Copy, Debug, PartialEq, Eq, Structural)]
pub struct TimingMetrics {
    pub detection_latency_sum_ns: u64,
    pub detection_latency_count: u64,
    pub detection_latency_max_ns: u64,
    pub execution_latency_sum_ns: u64,
    pub execution_latency_count: u64,
    pub execution_latency_max_ns: u64,
    pub ws_processing_sum_ns: u64,
    pub ws_processing_count: u64,
}

/// How often things happened. The counts wrap around.
#[derive(Clone, Copy, Debug, PartialEq, Eq, Structural)]
pub struct CountMetrics {
    pub arbs_detected: u64,
    pub arbs_attempted: u64,
    pub arbs_profitable: u64,
    pub arbs_failed: u64,
    pub arbs_skipped_liquidity: u64,
    pub arbs_skipped_capital: u64,
    /// Found but not executed in time.
    pub arbs_missed: u64,
    pub ws_messages_processed: u64,
    pub markets_tracked: u64,
}

/// Money, in cents.
#[derive(Clone, Copy, Debug, PartialEq, Eq, Structural)]
pub struct FinancialMetrics {
    pub total_profit_cents: i64,
    pub total_volume_cents: u64,
    pub largest_win_cents: i64,
    /// As a positive number.
    pub largest_loss_cents: i64,
    pub total_fees_cents: u64,
    pub current_capital_cents: i64,
}

/// Figures of one category.
#[derive(Debug)]
pub struct CategoryStats<Q> {
    pub arbs_detected: u64,
    pub arbs_executed: u64,
    pub arbs_profitable: u64,
    pub total_profit_cents: i64,
    pub avg_profit_cents: Q,
}

/// Figures of markets with one number of outcomes.
#[derive(Debug)]
pub struct OutcomeStats<Q> {
    pub arbs_detected: u64,
    pub arbs_executed: u64,
    pub arbs_profitable: u64,
    pub total_profit_cents: i64,
    pub avg_detection_latency_ms: Q,
}

/// Figures of one hour.
#[derive(Clone, Copy, Debug, PartialEq, Eq, Structural)]
pub struct HourlySnapshot {
    /// Unix time of the hour.
    pub hour: u64,
    pub arbs_detected: u64,
    pub arbs_executed: u64,
    pub profit_cents: i64,
    pub markets_tracked: u64,
}

/// The report of a day.
#[derive(Debug)]
pub struct DailyReport<Q> {
    pub date: String,
    /// "PAPER" or "LIVE".
    pub mode: String,
    pub day_number: u32,
    pub markets_tracked: u64,
    pub arbs_detected: u64,
    pub arbs_executed: u64,
    pub arbs_profitable: u64,
    pub arbs_missed: u64,
    pub win_rate_pct: Q,
    pub total_profit_cents: i64,
    pub avg_profit_cents: Q,
    pub largest_win_cents: i64,
    pub largest_loss_cents: i64,
    pub avg_detection_latency_ms: Q,
    pub avg_execution_latency_ms: Q,
    pub best_category: Option<String>,
    pub recommendation: String,
}

/// All figures.
#[derive(Debug)]
pub struct Metrics<Q> {
    /// When counting began, on a clock that only runs forward.
    pub started_at_ns: u64,
    pub timing: TimingMetrics,
    pub counts: CountMetrics,
    pub financial: FinancialMetrics,
    pub by_category: Vec<(MarketCategory, CategoryStats<Q>)>,
    pub by_outcome_count: Vec<(u8, OutcomeStats<Q>)>,
    pub hourly_stats: Vec<HourlySnapshot>,
}

/// No times.
pub open spec fn no_timing() -> TimingMetrics {
    TimingMetrics {
        detection_latency_sum_ns: 0,
        detection_latency_count: 0,
        detection_latency_max_ns: 0,
        execution_latency_sum_ns: 0,
        execution_latency_count: 0,
        execution_latency_max_ns: 0,
        ws_processing_sum_ns: 0,
        ws_processing_count: 0,
    }
}

/// No counts.
pub open spec fn no_counts() -> CountMetrics {
    CountMetrics {
        arbs_detected: 0,
        arbs_attempted: 0,
        arbs_profitable: 0,
        arbs_failed: 0,
        arbs_skipped_liquidity: 0,
        arbs_skipped_capital: 0,
        arbs_missed: 0,
        ws_messages_processed: 0,
        markets_tracked: 0,
    }
}

/// No money but the capital.
pub open spec fn only_capital(capital_cents: i64) -> FinancialMetrics {
    FinancialMetrics {
        total_profit_cents: 0,
        total_volume_cents: 0,
        largest_win_cents: 0,
        largest_loss_cents: 0,
        total_fees_cents: 0,
        current_capital_cents: capital_cents,
    }
}

/// The mean of some times in milliseconds; zero where there is none.
pub open spec fn mean_ms<Q: Quantity>(sum_ns: u64, count: u64) -> Q {
    if count == 0 {
        Q::zero_spec()
    } else {
        Q::from_int_spec(sum_ns as i128).over_spec(Q::from_int_spec(count as i128)).over_spec(
            Q::from_int_spec(1_000_000),
        )
    }
}

fn mean_millis<Q: Quantity>(sum_ns: u64, count: u64) -> (r: Q)
    ensures
        r == mean_ms::<Q>(sum_ns, count),
{
    if count == 0 {
        Q::zero()
    } else {
        Q::from_int(sum_ns as i128).over(Q::from_int(count as i128)).over(Q::from_int(1_000_000))
    }
}

impl TimingMetrics {
    /// With the time of one more detection.
    pub open spec fn with_detection(self, latency_ns: u64) -> Self {
        TimingMetrics {
            detection_latency_sum_ns: self.detection_latency_sum_ns.wrapping_add(latency_ns),
            detection_latency_count: self.detection_latency_count.wrapping_add(1),
            detection_latency_max_ns: larger(
                latency_ns as int,
                self.detection_latency_max_ns as int,
            ) as u64,
            ..self
        }
    }

    /// With the time of one more execution.
    pub open spec fn with_execution(self, latency_ns: u64) -> Self {
        TimingMetrics {
            execution_latency_sum_ns: self.execution_latency_sum_ns.wrapping_add(latency_ns),
            execution_latency_count: self.execution_latency_count.wrapping_add(1),
            execution_latency_max_ns: larger(
                latency_ns as int,
                self.execution_latency_max_ns as int,
            ) as u64,
            ..self
        }
    }

    /// No times.
    pub fn new() -> (r: Self)
        ensures
            r == no_timing(),
    {
        TimingMetrics {
            detection_latency_sum_ns: 0,
            detection_latency_count: 0,
            detection_latency_max_ns: 0,
            execution_latency_sum_ns: 0,
            execution_latency_count: 0,
            execution_latency_max_ns: 0,
            ws_processing_sum_ns: 0,
            ws_processing_count: 0,
        }
    }

    /// Takes in the time of a detection.
    pub fn record_detection(&mut self, latency_ns: u64)
        ensures
            *final(self) == old(self).with_detection(latency_ns),
    {
        self.detection_latency_sum_ns = self.detection_latency_sum_ns.wrapping_add(latency_ns);
        self.detection_latency_count = self.detection_latency_count.wrapping_add(1);
        if latency_ns > self.detection_latency_max_ns {
            self.detection_latency_max_ns = latency_ns;
        }
    }

    /// Takes in the time of an execution.
    pub fn record_execution(&mut self, latency_ns: u64)
        ensures
            *final(self) == old(self).with_execution(latency_ns),
    {
        self.execution_latency_sum_ns = self.execution_latency_sum_ns.wrapping_add(latency_ns);
        self.execution_latency_count = self.execution_latency_count.wrapping_add(1);
        if latency_ns > self.execution_latency_max_ns {
            self.execution_latency_max_ns = latency_ns;
        }
    }

    /// Takes in the time that a message of the price feed took.
    pub fn record_ws_processing(&mut self, processing_ns: u64)
        ensures
            *final(self) == (TimingMetrics {
                ws_processing_sum_ns: old(self).ws_processing_sum_ns.wrapping_add(processing_ns),
                ws_processing_count: old(self).ws_processing_count.wrapping_add(1),
                ..*old(self)
            }),
    {
        self.ws_processing_sum_ns = self.ws_processing_sum_ns.wrapping_add(processing_ns);
        self.ws_processing_count = self.ws_processing_count.wrapping_add(1);
    }

    /// The mean time of a detection in milliseconds.
    pub fn avg_detection_latency_ms<Q: Quantity>(&self) -> (r: Q)
        ensures
            r == mean_ms::<Q>(self.detection_latency_sum_ns, self.detection_latency_count),
    {
        mean_millis(self.detection_latency_sum_ns, self.detection_latency_count)
    }

    /// The mean time of an execution in milliseconds.
    pub fn avg_execution_latency_ms<Q: Quantity>(&self) -> (r: Q)
        ensures
            r == mean_ms::<Q>(self.execution_latency_sum_ns, self.execution_latency_count),
    {
        mean_millis(self.execution_latency_sum_ns, self.execution_latency_count)
    }
}

impl CountMetrics {
    /// With one more execution.
    pub open spec fn with_execution(self, profit_cents: i64, success: bool) -> Self {
        let won = success && profit_cents > 0;
        let lost = !success || profit_cents < 0;
        CountMetrics {
            arbs_attempted: self.arbs_attempted.wrapping_add(1),
            arbs_profitable: if won {
                self.arbs_profitable.wrapping_add(1)
            } else {
                self.arbs_profitable
            },
            arbs_failed: if !won && lost {
                self.arbs_failed.wrapping_add(1)
            } else {
                self.arbs_failed
            },
            ..self
        }
    }

    /// No counts.
    pub fn new() -> (r: Self)
        ensures
            r == no_counts(),
    {
        CountMetrics {
            arbs_detected: 0,
            arbs_attempted: 0,
            arbs_profitable: 0,
            arbs_failed: 0,
            arbs_skipped_liquidity: 0,
            arbs_skipped_capital: 0,
            arbs_missed: 0,
            ws_messages_processed: 0,
            markets_tracked: 0,
        }
    }
}

impl FinancialMetrics {
    /// With one more execution: a profit counts where the execution succeeded, a
    /// loss in any case.
    pub open spec fn with_execution(self, profit_cents: i64, success: bool) -> Self {
        if success && profit_cents > 0 {
            FinancialMetrics {
                total_profit_cents: self.total_profit_cents.wrapping_add(profit_cents),
                largest_win_cents: larger(
                    profit_cents as int,
                    self.largest_win_cents as int,
                ) as i64,
                ..self
            }
        } else if profit_cents < 0 {
            FinancialMetrics {
                total_profit_cents: self.total_profit_cents.wrapping_add(profit_cents),
                largest_loss_cents: larger(-profit_cents, self.largest_loss_cents as int) as i64,
                ..self
            }
        } else {
            self
        }
    }

    /// No money but the capital.
    pub fn new(initial_capital_cents: i64) -> (r: Self)
        ensures
            r == only_capital(initial_capital_cents),
    {
        FinancialMetrics {
            total_profit_cents: 0,
            total_volume_cents: 0,
            largest_win_cents: 0,
            largest_loss_cents: 0,
            total_fees_cents: 0,
            current_capital_cents: initial_capital_cents,
        }
    }
}

/// The part of the attempts that brought a profit, in percent; zero where there
/// was none.
pub open spec fn win_rate_pct<Q: Quantity>(counts: CountMetrics) -> Q {
    if counts.arbs_attempted == 0 {
        Q::zero_spec()
    } else {
        Q::from_int_spec(counts.arbs_profitable as i128).over_spec(
            Q::from_int_spec(counts.arbs_attempted as i128),
        ).times_spec(Q::from_int_spec(100))
    }
}

/// The profit of an attempt in cents, on average; zero where there was none.
pub open spec fn mean_profit<Q: Quantity>(counts: CountMetrics, financial: FinancialMetrics) -> Q {
    if counts.arbs_attempted == 0 {
        Q::zero_spec()
    } else {
        Q::from_int_spec(financial.total_profit_cents as i128).over_spec(
            Q::from_int_spec(counts.arbs_attempted as i128),
        )
    }
}

/// What the report recommends.
pub open spec fn recommendation_text<Q: Quantity>(
    mode: Seq<char>,
    day_number: u32,
    win_rate: Q,
    total_profit_cents: i64,
) -> Seq<char> {
    if mode == "PAPER"@ {
        if day_number < REPORT_PAPER_DAYS {
            "CONTINUE PAPER TRADING (Day "@ + text::decimal_text(day_number as nat) + "/14)"@
        } else if Q::from_int_spec(60).at_most_spec(win_rate) && total_profit_cents
            >= REPORT_READY_PROFIT_CENTS {
            "READY FOR LIVE TRADING"@
        } else if win_rate.below_spec(Q::from_int_spec(40)) {
            "REVIEW STRATEGY - Win rate too low"@
        } else {
            "EXTEND PAPER TRADING - Need more data"@
        }
    } else if total_profit_cents < REPORT_WARNING_CENTS {
        "WARNING: Consider pausing - significant losses"@
    } else if win_rate.below_spec(Q::from_int_spec(50)) {
        "MONITOR: Win rate below target"@
    } else {
        "ON TRACK"@
    }
}

/// Recommends what to do next.
pub fn recommend<Q: Quantity>(
    mode: &str,
    day_number: u32,
    win_rate: Q,
    total_profit_cents: i64,
) -> (r: String)
    ensures
        r@ == recommendation_text(mode@, day_number, win_rate, total_profit_cents),
{
    if text::same(mode, "PAPER") {
        if day_number < REPORT_PAPER_DAYS {
            let mut s: String = "CONTINUE PAPER TRADING (Day ".to_string();
            s.append(text::decimal(day_number as u64).as_str());
            s.append("/14)");
            s
        } else if Q::from_int(60).at_most(win_rate) && total_profit_cents
            >= REPORT_READY_PROFIT_CENTS {
            "READY FOR LIVE TRADING".to_string()
        } else if win_rate.below(Q::from_int(40)) {
            "REVIEW STRATEGY - Win rate too low".to_string()
        } else {
            "EXTEND PAPER TRADING - Need more data".to_string()
        }
    } else if total_profit_cents < REPORT_WARNING_CENTS {
        "WARNING: Consider pausing - significant losses".to_string()
    } else if win_rate.below(Q::from_int(50)) {
        "MONITOR: Win rate below target".to_string()
    } else {
        "ON TRACK".to_string()
    }
}

impl<Q: Quantity> Metrics<Q> {
    /// No figures but the capital.
    pub fn new(initial_capital_cents: i64, now_ns: u64) -> (r: Self)
        ensures
            r.started_at_ns == now_ns,
            r.timing == no_timing(),
            r.counts == no_counts(),
            r.financial == only_capital(initial_capital_cents),
            r.by_category@ == Seq::<(MarketCategory, CategoryStats<Q>)>::empty(),
            r.by_outcome_count@ == Seq::<(u8, OutcomeStats<Q>)>::empty(),
            r.hourly_stats@ == Seq::<HourlySnapshot>::empty(),
    {
        Metrics {
            started_at_ns: now_ns,
            timing: TimingMetrics::new(),
            counts: CountMetrics::new(),
            financial: FinancialMetrics::new(initial_capital_cents),
            by_category: Vec::new(),
            by_outcome_count: Vec::new(),
            hourly_stats: Vec::new(),
        }
    }

    /// Takes in an opportunity that was found.
    pub fn record_detection(
        &mut self,
        latency_ns: u64,
        _category: MarketCategory,
        _outcome_count: u8,
    )
        ensures
            *final(self) == (Metrics {
                counts: CountMetrics {
                    arbs_detected: old(self).counts.arbs_detected.wrapping_add(1),
                    ..old(self).counts
                },
                timing: old(self).timing.with_detection(latency_ns),
                ..*old(self)
            }),
    {
        self.counts.arbs_detected = self.counts.arbs_detected.wrapping_add(1);
        self.timing.record_detection(latency_ns);
    }

    /// Takes in an execution.
    pub fn record_execution(
        &mut self,
        latency_ns: u64,
        profit_cents: i64,
        success: bool,
        _category: MarketCategory,
        _outcome_count: u8,
    )
        requires
            profit_cents > i64::MIN,
        ensures
            *final(self) == (Metrics {
                counts: old(self).counts.with_execution(profit_cents, success),
                timing: old(self).timing.with_execution(latency_ns),
                financial: old(self).financial.with_execution(profit_cents, success),
                ..*old(self)
            }),
    {
        self.counts.arbs_attempted = self.counts.arbs_attempted.wrapping_add(1);
        self.timing.record_execution(latency_ns);
        if success && profit_cents > 0 {
            self.counts.arbs_profitable = self.counts.arbs_profitable.wrapping_add(1);
            self.financial.total_profit_cents = self.financial.total_profit_cents.wrapping_add(
                profit_cents,
            );
            if profit_cents > self.financial.largest_win_cents {
                self.financial.largest_win_cents = profit_cents;
            }
        } else if !success || profit_cents < 0 {
            self.counts.arbs_failed = self.counts.arbs_failed.wrapping_add(1);
            if profit_cents < 0 {
                let loss: i64 = -profit_cents;
                self.financial.total_profit_cents = self.financial.total_profit_cents.wrapping_add(
                    profit_cents,
                );
                if loss > self.financial.largest_loss_cents {
                    self.financial.largest_loss_cents = loss;
                }
            }
        }
    }

    /// Counts an opportunity without enough on offer.
    pub fn record_skip_liquidity(&mut self)
        ensures
            *final(self) == (Metrics {
                counts: CountMetrics {
                    arbs_skipped_liquidity: old(self).counts.arbs_skipped_liquidity.wrapping_add(1),
                    ..old(self).counts
                },
                ..*old(self)
            }),
    {
        self.counts.arbs_skipped_liquidity = self.counts.arbs_skipped_liquidity.wrapping_add(1);
    }

    /// Counts an opportunity without enough capital.
    pub fn record_skip_capital(&mut self)
        ensures
            *final(self) == (Metrics {
                counts: CountMetrics {
                    arbs_skipped_capital: old(self).counts.arbs_skipped_capital.wrapping_add(1),
                    ..old(self).counts
                },
                ..*old(self)
            }),
    {
        self.counts.arbs_skipped_capital = self.counts.arbs_skipped_capital.wrapping_add(1);
    }

    /// Counts an opportunity that was gone too soon.
    pub fn record_missed(&mut self)
        ensures
            *final(self) == (Metrics {
                counts: CountMetrics {
                    arbs_missed: old(self).counts.arbs_missed.wrapping_add(1),
                    ..old(self).counts
                },
                ..*old(self)
            }),
    {
        self.counts.arbs_missed = self.counts.arbs_missed.wrapping_add(1);
    }

    /// Takes in a message of the price feed.
    pub fn record_ws_message(&mut self, processing_ns: u64)
        ensures
            *final(self) == (Metrics {
                counts: CountMetrics {
                    ws_messages_processed: old(self).counts.ws_messages_processed.wrapping_add(1),
                    ..old(self).counts
                },
                timing: TimingMetrics {
                    ws_processing_sum_ns: old(self).timing.ws_processing_sum_ns.wrapping_add(
                        processing_ns,
                    ),
                    ws_processing_count: old(self).timing.ws_processing_count.wrapping_add(1),
                    ..old(self).timing
                },
                ..*old(self)
            }),
    {
        self.counts.ws_messages_processed = self.counts.ws_messages_processed.wrapping_add(1);
        self.timing.record_ws_processing(processing_ns);
    }

    /// Notes how many markets are tracked.
    pub fn set_markets_tracked(&mut self, count: u64)
        ensures
            *final(self) == (Metrics {
                counts: CountMetrics { markets_tracked: count, ..old(self).counts },
                ..*old(self)
            }),
    {
        self.counts.markets_tracked = count;
    }

    /// The part of the attempts that brought a profit, in percent.
    pub fn win_rate(&self) -> (r: Q)
        ensures
            r == win_rate_pct::<Q>(self.counts),
    {
        if self.counts.arbs_attempted == 0 {
            Q::zero()
        } else {
            Q::from_int(self.counts.arbs_profitable as i128).over(
                Q::from_int(self.counts.arbs_attempted as i128),
            ).times(Q::from_int(100))
        }
    }

    /// The mean time of a detection in milliseconds.
    pub fn avg_detection_latency_ms(&self) -> (r: Q)
        ensures
            r == mean_ms::<Q>(
                self.timing.detection_latency_sum_ns,
                self.timing.detection_latency_count,
            ),
    {
        self.timing.avg_detection_latency_ms()
    }

    /// The mean time of an execution in milliseconds.
    pub fn avg_execution_latency_ms(&self) -> (r: Q)
        ensures
            r == mean_ms::<Q>(
                self.timing.execution_latency_sum_ns,
                self.timing.execution_latency_count,
            ),
    {
        self.timing.avg_execution_latency_ms()
    }

    /// The report at `now`.
    pub fn generate_daily_report(&self, mode: &str, day_number: u32, now: Timestamp) -> (r:
        DailyReport<Q>)
        requires
            now.in_calendar(),
        ensures
            r.date@ == timestamp::utc_date(now.secs, now.nanos),
            r.mode@ == mode@,
            r.day_number == day_number,
            r.markets_tracked == self.counts.markets_tracked,
            r.arbs_detected == self.counts.arbs_detected,
            r.arbs_executed == self.counts.arbs_attempted,
            r.arbs_profitable == self.counts.arbs_profitable,
            r.arbs_missed == self.counts.arbs_missed,
            r.win_rate_pct == win_rate_pct::<Q>(self.counts),
            r.total_profit_cents == self.financial.total_profit_cents,
            r.avg_profit_cents == mean_profit::<Q>(self.counts, self.financial),
            r.largest_win_cents == self.financial.largest_win_cents,
            r.largest_loss_cents == self.financial.largest_loss_cents,
            r.avg_detection_latency_ms == mean_ms::<Q>(
                self.timing.detection_latency_sum_ns,
                self.timing.detection_latency_count,
            ),
            r.avg_execution_latency_ms == mean_ms::<Q>(
                self.timing.execution_latency_sum_ns,
                self.timing.execution_latency_count,
            ),
            r.best_category is None,
            r.recommendation@ == recommendation_text(
                mode@,
                day_number,
                win_rate_pct::<Q>(self.counts),
                self.financial.total_profit_cents,
            ),
    {
        let win_rate: Q = self.win_rate();
        let avg_profit: Q = if self.counts.arbs_attempted > 0 {
            Q::from_int(self.financial.total_profit_cents as i128).over(
                Q::from_int(self.counts.arbs_attempted as i128),
            )
        } else {
            Q::zero()
        };
        let recommendation: String = recommend(
            mode,
            day_number,
            win_rate,
            self.financial.total_profit_cents,
        );
        DailyReport {
            date: timestamp::date_text(now),
            mode: mode.to_string(),
            day_number,
            markets_tracked: self.counts.markets_tracked,
            arbs_detected: self.counts.arbs_detected,
            arbs_executed: self.counts.arbs_attempted,
            arbs_profitable: self.counts.arbs_profitable,
            arbs_missed: self.counts.arbs_missed,
            win_rate_pct: win_rate,
            total_profit_cents: self.financial.total_profit_cents,
            avg_profit_cents: avg_profit,
            largest_win_cents: self.financial.largest_win_cents,
            largest_loss_cents: self.financial.largest_loss_cents,
            avg_detection_latency_ms: self.avg_detection_latency_ms(),
            avg_execution_latency_ms: self.avg_execution_latency_ms(),
            best_category: None,
            recommendation,
        }
    }
}

/// Every execution is an attempt. It counts as profitable or as failed, never
/// as both, and as neither exactly where it succeeded without profit or loss.
pub proof fn law_execution_counts_once(counts: CountMetrics, profit_cents: i64, success: bool)
    requires
        counts.arbs_attempted < u64::MAX,
        counts.arbs_profitable + counts.arbs_failed <= counts.arbs_attempted,
    ensures
        ({
            let after = counts.with_execution(profit_cents, success);
            let more = (after.arbs_profitable + after.arbs_failed) - (counts.arbs_profitable
                + counts.arbs_failed);
            &&& after.arbs_attempted == counts.arbs_attempted + 1
            &&& after.arbs_profitable + after.arbs_failed <= after.arbs_attempted
            &&& more == (if success && profit_cents == 0 {
                0int
            } else {
                1
            })
        }),
{
}

/// The largest win and the largest loss never shrink, and bound every profit
/// that was counted.
pub proof fn law_extremes_bound_profits(
    financial: FinancialMetrics,
    profit_cents: i64,
    success: bool,
)
    requires
        profit_cents > i64::MIN,
    ensures
        ({
            let after = financial.with_execution(profit_cents, success);
            &&& after.largest_win_cents >= financial.largest_win_cents
            &&& after.largest_loss_cents >= financial.largest_loss_cents
            &&& success && profit_cents > 0 ==> profit_cents <= after.largest_win_cents
            &&& profit_cents < 0 ==> -profit_cents <= after.largest_loss_cents
        }),
{
}

/// A time adds to its sum and its count, and the longest one is kept; the times
/// of other things stay.
pub proof fn law_times_add_up(timing: TimingMetrics, latency_ns: u64)
    requires
        timing.detection_latency_sum_ns + latency_ns <= u64::MAX,
        timing.detection_latency_count < u64::MAX,
        timing.execution_latency_sum_ns + latency_ns <= u64::MAX,
        timing.execution_latency_count < u64::MAX,
    ensures
        ({
            let after = timing.with_detection(latency_ns);
            &&& after.detection_latency_sum_ns == timing.detection_latency_sum_ns + latency_ns
            &&& after.detection_latency_count == timing.detection_latency_count + 1
            &&& after.detection_latency_max_ns >= latency_ns
            &&& after.detection_latency_max_ns >= timing.detection_latency_max_ns
            &&& after.detection_latency_max_ns == latency_ns || after.detection_latency_max_ns
                == timing.detection_latency_max_ns
            &&& after.execution_latency_sum_ns == timing.execution_latency_sum_ns
            &&& after.execution_latency_count == timing.execution_latency_count
            &&& after.ws_processing_count == timing.ws_processing_count
        }),
        ({
            let after = timing.with_execution(latency_ns);
            &&& after.execution_latency_sum_ns == timing.execution_latency_sum_ns + latency_ns
            &&& after.execution_latency_count == timing.execution_latency_count + 1
            &&& after.execution_latency_max_ns >= latency_ns
            &&& after.execution_latency_max_ns >= timing.execution_latency_max_ns
            &&& after.execution_latency_max_ns == latency_ns || after.execution_latency_max_ns
                == timing.execution_latency_max_ns
            &&& after.detection_latency_sum_ns == timing.detection_latency_sum_ns
            &&& after.detection_latency_count == timing.detection_latency_count
            &&& after.ws_processing_count == timing.ws_processing_count
        }),
{
}

/// An execution is profitable exactly where it succeeded with a profit, and
/// failed exactly where it did not succeed or brought a loss; no other count
/// moves.
pub proof fn law_execution_is_counted_by_its_result(
    counts: CountMetrics,
    profit_cents: i64,
    success: bool,
)
    requires
        counts.arbs_attempted < u64::MAX,
        counts.arbs_profitable < u64::MAX,
        counts.arbs_failed < u64::MAX,
    ensures
        ({
            let after = counts.with_execution(profit_cents, success);
            &&& after.arbs_profitable == counts.arbs_profitable + (if success && profit_cents > 0 {
                1int
            } else {
                0
            })
            &&& after.arbs_failed == counts.arbs_failed + (if !success || profit_cents < 0 {
                1int
            } else {
                0
            })
            &&& after.arbs_detected == counts.arbs_detected
            &&& after.arbs_missed == counts.arbs_missed
            &&& after.arbs_skipped_liquidity == counts.arbs_skipped_liquidity
            &&& after.arbs_skipped_capital == counts.arbs_skipped_capital
            &&& after.ws_messages_processed == counts.ws_messages_processed
            &&& after.markets_tracked == counts.markets_tracked
        }),
{
}

/// The total moves by a profit that was made and by every loss, and by nothing
/// else; the largest win and the largest loss are ones that were made.
pub proof fn law_money_moves_by_the_result(
    financial: FinancialMetrics,
    profit_cents: i64,
    success: bool,
)
    requires
        i64::MIN < profit_cents,
        i64::MIN <= financial.total_profit_cents + profit_cents <= i64::MAX,
    ensures
        ({
            let after = financial.with_execution(profit_cents, success);
            let counts = (success && profit_cents > 0) || profit_cents < 0;
            &&& after.total_profit_cents == financial.total_profit_cents + (if counts {
                profit_cents as int
            } else {
                0
            })
            &&& after.largest_win_cents == financial.largest_win_cents || (success && profit_cents
                > 0 && after.largest_win_cents == profit_cents)
            &&& after.largest_loss_cents == financial.largest_loss_cents || (profit_cents < 0
                && after.largest_loss_cents == -profit_cents)
            &&& after.current_capital_cents == financial.current_capital_cents
            &&& after.total_volume_cents == financial.total_volume_cents
            &&& after.total_fees_cents == financial.total_fees_cents
        }),
{
}

/// The win rate is the profitable part of the attempts in percent, and the mean
/// profit what an attempt brought, to the millionth below.
pub proof fn law_rates_are_per_attempt(counts: CountMetrics, financial: FinancialMetrics)
    requires
        counts.arbs_profitable <= counts.arbs_attempted <= 1_000_000_000,
        0 <= financial.total_profit_cents <= 1_000_000_000_000,
    ensures
        counts.arbs_attempted == 0 ==> win_rate_pct::<Decimal>(counts).units == 0 && mean_profit::<
            Decimal,
        >(counts, financial).units == 0,
        counts.arbs_attempted > 0 ==> {
            let rate = win_rate_pct::<Decimal>(counts).units;
            let mean = mean_profit::<Decimal>(counts, financial).units;
            let n = counts.arbs_attempted;
            &&& rate * n <= counts.arbs_profitable * 100_000_000 < (rate + 100) * n
            &&& mean * n <= financial.total_profit_cents * 1_000_000 < (mean + 1) * n
        },
{
    let n = counts.arbs_attempted as int;
    let w = counts.arbs_profitable as int;
    let t = financial.total_profit_cents as int;
    if n > 0 {
        let all = Decimal::from_int_spec(n as i128);
        let wins = Decimal::from_int_spec(w as i128);
        let total = Decimal::from_int_spec(t as i128);
        let hundred = Decimal::from_int_spec(100);
        assert(all.units == n * 1_000_000);
        assert(wins.units == w * 1_000_000);
        assert(total.units == t * 1_000_000);
        assert(hundred.units == 100_000_000);
        let q = (w * 1_000_000 * 1_000_000) / (n * 1_000_000);
        assert(0 <= q <= 1_000_000 && q * n <= w * 1_000_000 < (q + 1) * n) by (nonlinear_arith)
            requires
                q == (w * 1_000_000 * 1_000_000) / (n * 1_000_000),
                0 <= w <= n,
                n > 0,
        ;
        let part = wins.over_spec(all);
        assert(part.units == q);
        assert(part.units * hundred.units == q * 100_000_000);
        assert(part.times_spec(hundred).units == q * 100);
        assert((q * 100) * n <= w * 100_000_000 < (q * 100 + 100) * n) by (nonlinear_arith)
            requires
                q * n <= w * 1_000_000 < (q + 1) * n,
        ;
        let m = (t * 1_000_000 * 1_000_000) / (n * 1_000_000);
        assert(0 <= m <= t * 1_000_000 && m * n <= t * 1_000_000 < (m + 1) * n) by (nonlinear_arith)
            requires
                m == (t * 1_000_000 * 1_000_000) / (n * 1_000_000),
                0 <= t,
                n > 0,
        ;
        assert(total.over_spec(all).units == m);
    }
}

/// A mean time is the sum of the times over their number, in milliseconds, to the
/// millionth below; without times there is none.
pub proof fn law_mean_time_is_sum_over_count(sum_ns: u64, count: u64)
    requires
        sum_ns <= 9_000_000_000_000,
        count <= 9_000_000_000_000,
    ensures
        count == 0 ==> mean_ms::<Decimal>(sum_ns, count).units == 0,
        count > 0 ==> mean_ms::<Decimal>(sum_ns, count).units * count <= sum_ns < (mean_ms::<
            Decimal,
        >(sum_ns, count).units + 1) * count,
{
    if count > 0 {
        let s = sum_ns as int;
        let n = count as int;
        let sum = Decimal::from_int_spec(s as i128);
        let all = Decimal::from_int_spec(n as i128);
        let million = Decimal::from_int_spec(1_000_000);
        assert(sum.units == s * 1_000_000);
        assert(all.units == n * 1_000_000);
        assert(million.units == 1_000_000_000_000);
        let q = (s * 1_000_000 * 1_000_000) / (n * 1_000_000);
        assert(0 <= q <= s * 1_000_000 && q * n <= s * 1_000_000 < (q + 1) * n) by (nonlinear_arith)
            requires
                q == (s * 1_000_000 * 1_000_000) / (n * 1_000_000),
                0 <= s,
                n > 0,
        ;
        let ns = sum.over_spec(all);
        assert(ns.units == q);
        let r = (q * 1_000_000) / 1_000_000_000_000;
        assert(ns.over_spec(million).units == r);
        assert(r * 1_000_000 <= q < (r + 1) * 1_000_000);
        assert(r * n <= s < (r + 1) * n) by (nonlinear_arith)
            requires
                q * n <= s * 1_000_000 < (q + 1) * n,
                r * 1_000_000 <= q,
                q + 1 <= (r + 1) * 1_000_000,
                n > 0,
        ;
    }
}

/// In paper mode the report counts the days up to 14; then it speaks for live
/// trading exactly from a win rate of 60 percent and $10 of profit on, asks for a
/// review below 40 percent, and for more data else. In any other mode it warns of
/// more than $20 of loss and of a win rate below 50 percent.
pub proof fn law_report_recommends(
    mode: Seq<char>,
    day_number: u32,
    win_rate: Decimal,
    total_profit_cents: i64,
)
    ensures
        ({
            let says = recommendation_text(mode, day_number, win_rate, total_profit_cents);
            let paper = mode == "PAPER"@;
            let ready = win_rate.units >= 60_000_000 && total_profit_cents >= 1000;
            &&& paper && day_number < 14 ==> says == "CONTINUE PAPER TRADING (Day "@
                + text::decimal_text(day_number as nat) + "/14)"@
            &&& paper && day_number >= 14 && ready ==> says == "READY FOR LIVE TRADING"@
            &&& paper && day_number >= 14 && !ready && win_rate.units < 40_000_000 ==> says
                == "REVIEW STRATEGY - Win rate too low"@
            &&& paper && day_number >= 14 && !ready && win_rate.units >= 40_000_000 ==> says
                == "EXTEND PAPER TRADING - Need more data"@
            &&& !paper && total_profit_cents < -2000 ==> says
                == "WARNING: Consider pausing - significant losses"@
            &&& !paper && total_profit_cents >= -2000 && win_rate.units < 50_000_000 ==> says
                == "MONITOR: Win rate below target"@
            &&& !paper && total_profit_cents >= -2000 && win_rate.units >= 50_000_000 ==> says
                == "ON TRACK"@
        }),
{
    assert(Decimal::from_int_spec(60).units == 60_000_000);
    assert(Decimal::from_int_spec(40).units == 40_000_000);
    assert(Decimal::from_int_spec(50).units == 50_000_000);
}

/// A mean loss is what an attempt lost, to the millionth toward zero.
pub proof fn law_mean_loss_is_per_attempt(counts: CountMetrics, financial: FinancialMetrics)
    requires
        0 < counts.arbs_attempted <= 1_000_000_000,
        -1_000_000_000_000 <= financial.total_profit_cents < 0,
    ensures
        ({
            let mean = mean_profit::<Decimal>(counts, financial).units;
            let n = counts.arbs_attempted;
            (mean - 1) * n < financial.total_profit_cents * 1_000_000 <= mean * n
        }),
{
    let n = counts.arbs_attempted as int;
    let t = -(financial.total_profit_cents as int);
    let all = Decimal::from_int_spec(n as i128);
    let total = Decimal::from_int_spec(financial.total_profit_cents as i128);
    assert(all.units == n * 1_000_000);
    assert(total.units == -t * 1_000_000);
    let m = (t * 1_000_000 * 1_000_000) / (n * 1_000_000);
    assert(0 <= m <= t * 1_000_000 && m * n <= t * 1_000_000 < (m + 1) * n) by (nonlinear_arith)
        requires
            m == (t * 1_000_000 * 1_000_000) / (n * 1_000_000),
            0 <= t,
            n > 0,
    ;
    assert(-(total.units * 1_000_000) == t * 1_000_000 * 1_000_000);
    assert(total.over_spec(all).units == -m);
    assert((-m - 1) * n == -((m + 1) * n)) by (nonlinear_arith);
    assert((-m) * n == -(m * n)) by (nonlinear_arith);
}

} // verus!
