//! Execution: which requests are acted on, for how many contracts, in which
//! mode, and what comes of the fills.

use vstd::arithmetic::div_mod::*;
use vstd::prelude::*;
use vstd::string::*;

use crate::circuit_breaker::CircuitBreaker;
use crate::circuit_breaker;
use crate::config;
use crate::config::{MarketCategory, COOLDOWN_BETWEEN_ARBS_MS, MIN_LIQUIDITY_CONTRACTS};
use crate::market_scanner;
use crate::market_scanner::{MarketView, Outcome, OutcomeView, TrackedMarket};
use crate::paper_trading::SimulatedResult;
use crate::quantity::{Decimal, Quantity};
use crate::seqs;
use crate::text;
use crate::timestamp::Timestamp;
use crate::types;
use crate::types::{cents_to_price, least_value, total_value, ExecutionRequest};

verus! {

/// How many markets are kept from being executed twice at a time.
pub const IN_FLIGHT_MARKETS: u16 = 2048;

/// Words that hold a bit for each of them.
pub const IN_FLIGHT_WORDS: usize = 32;

/// The largest number of contracts in one execution.
pub const MAX_CONTRACTS: u16 = 100;

/// Seconds for which a market stays in flight after its execution.
pub const RELEASE_DELAY_SECS: u64 = 10;

/// Pause between two executions in nanoseconds.
pub const COOLDOWN_NS: u64 = COOLDOWN_BETWEEN_ARBS_MS * 1_000_000;

/// Requests that may wait to be executed.
pub const EXECUTION_QUEUE: usize = 256;

// ---------------------------------------------------------------------------
// Markets in flight
// ---------------------------------------------------------------------------

/// Whether bit `bit` of a word is set.
pub open spec fn has_bit(word: u64, bit: u64) -> bool {
    (word >> bit) & 1 == 1
}

/// Whether the market has its bit set.
pub open spec fn has_flag(words: Seq<u64>, market_id: int) -> bool {
    has_bit(words[market_id / 64], (market_id % 64) as u64)
}

/// The markets whose bits are set.
pub open spec fn flagged(words: Seq<u64>) -> Set<int> {
    Set::new(|id: int| 0 <= id < IN_FLIGHT_MARKETS && has_flag(words, id))
}

proof fn lemma_set_bit(word: u64, bit: u64, other: u64)
    requires
        bit < 64,
        other < 64,
    ensures
        has_bit(word | (1u64 << bit), other) == (bit == other || has_bit(word, other)),
        (word & (1u64 << bit) != 0) == has_bit(word, bit),
{
    assert((((word | (1u64 << bit)) >> other) & 1 == 1) == (bit == other || (word >> other) & 1
        == 1)) by (bit_vector)
        requires
            bit < 64,
            other < 64,
    ;
    assert((word & (1u64 << bit) != 0) == ((word >> bit) & 1 == 1)) by (bit_vector)
        requires
            bit < 64,
    ;
}

proof fn lemma_clear_bit(word: u64, bit: u64, other: u64)
    requires
        bit < 64,
        other < 64,
    ensures
        has_bit(word & !(1u64 << bit), other) == (bit != other && has_bit(word, other)),
{
    assert((((word & !(1u64 << bit)) >> other) & 1 == 1) == (bit != other && (word >> other) & 1
        == 1)) by (bit_vector)
        requires
            bit < 64,
            other < 64,
    ;
}

// ---------------------------------------------------------------------------
// Whether and how a request is executed
// ---------------------------------------------------------------------------

/// Why a request is passed over.
#[derive(Clone, Copy, Debug, PartialEq, Eq, Structural)]
pub enum SkipCause {
    Cooldown,
    InFlight,
    LowProfit,
    NoSize,
    Breaker,
}

/// What a cause says.
pub open spec fn cause_text(cause: SkipCause) -> Seq<char> {
    match cause {
        SkipCause::Cooldown => "Cooldown active"@,
        SkipCause::InFlight => "Already in-flight"@,
        SkipCause::LowProfit => "Below profit threshold"@,
        SkipCause::NoSize => "Insufficient liquidity or capital"@,
        SkipCause::Breaker => "Circuit breaker"@,
    }
}

impl SkipCause {
    /// The cause in words.
    pub fn text(self) -> (r: &'static str)
        ensures
            r@ == cause_text(self),
    {
        match self {
            SkipCause::Cooldown => "Cooldown active",
            SkipCause::InFlight => "Already in-flight",
            SkipCause::LowProfit => "Below profit threshold",
            SkipCause::NoSize => "Insufficient liquidity or capital",
            SkipCause::Breaker => "Circuit breaker",
        }
    }
}

/// How a request is executed.
#[derive(Clone, Copy, Debug, PartialEq, Eq, Structural)]
pub enum ExecutionMode {
    /// In the books of simulated trading.
    Paper,
    /// Not at all, as if it were.
    DryRun,
    /// With real orders.
    Live,
}

/// A request that goes ahead: how, and for how many contracts of each outcome.
#[derive(Clone, Copy, Debug, PartialEq, Eq, Structural)]
pub struct ExecutionPlan {
    pub mode: ExecutionMode,
    pub contracts: u16,
}

/// What came of a request.
#[derive(Debug)]
pub struct ExecutionResult {
    pub market_id: u16,
    pub success: bool,
    pub profit_cents: i16,
    pub latency_ns: u64,
    pub filled_outcomes: usize,
    pub total_outcomes: usize,
    pub contracts: u16,
    pub error: Option<String>,
}

impl ExecutionResult {
    /// Whether this is what a request that is passed over gets.
    pub open spec fn is_skipped(self, market_id: u16, reason: Seq<char>) -> bool {
        &&& self.market_id == market_id
        &&& !self.success
        &&& self.profit_cents == 0
        &&& self.latency_ns == 0
        &&& self.filled_outcomes == 0
        &&& self.total_outcomes == 0
        &&& self.contracts == 0
        &&& self.error matches Some(e) && e@ == reason
    }

    /// The result for a request that is passed over.
    pub fn skipped(market_id: u16, reason: &str) -> (r: Self)
        ensures
            r.is_skipped(market_id, reason@),
    {
        ExecutionResult {
            market_id,
            success: false,
            profit_cents: 0,
            latency_ns: 0,
            filled_outcomes: 0,
            total_outcomes: 0,
            contracts: 0,
            error: Some(reason.to_string()),
        }
    }
}

/// The smaller of two numbers.
pub open spec fn smaller(a: int, b: int) -> int {
    if a < b {
        a
    } else {
        b
    }
}

/// How many contracts of each outcome are bought: as many as the capital for one
/// arbitrage and the available capital pay for and as are on offer, at most
/// `MAX_CONTRACTS`; none where the outcomes are free or cost a dollar or more, or
/// where too few are on offer. Of the available capital the low 32 bits count.
pub open spec fn position_size(prices: Seq<u16>, sizes: Seq<u16>, available_cents: int) -> int {
    let cost = seqs::total(prices);
    let on_offer = seqs::least(sizes) as int / 100;
    if available_cents <= 0 || cost <= 0 || cost >= 100 || on_offer < MIN_LIQUIDITY_CONTRACTS {
        0
    } else {
        let capital = smaller(config::capital_per_arb(), available_cents % 0x1_0000_0000);
        smaller(smaller(capital / cost, on_offer), MAX_CONTRACTS as int)
    }
}

/// The capital that a breaker makes available.
pub open spec fn available_capital(breaker: CircuitBreaker) -> int {
    if breaker.current_capital_cents > circuit_breaker::reserve() {
        breaker.current_capital_cents - circuit_breaker::reserve()
    } else {
        0
    }
}

/// How many contracts a request is good for.
pub open spec fn size_for(request: ExecutionRequest, breaker: CircuitBreaker) -> int {
    position_size(request.ask_prices@, request.ask_sizes@, available_capital(breaker))
}

/// Computes how many contracts of each outcome are bought.
pub fn calculate_position_size(request: &ExecutionRequest, available_cents: i64) -> (r: u16)
    requires
        available_cents > 0 ==> seqs::total(request.ask_prices@) <= u32::MAX,
    ensures
        r == position_size(request.ask_prices@, request.ask_sizes@, available_cents as int),
        r <= MAX_CONTRACTS,
{
    if available_cents <= 0 {
        return 0;
    }
    let available: u32 = (available_cents as u64 % 0x1_0000_0000) as u32;
    let cost: u32 = total_value(&request.ask_prices);
    if cost == 0 || cost >= 100 {
        return 0;
    }
    let most: u32 = config::max_capital_per_arb_cents();
    let capital: u32 = if most < available { most } else { available };
    assert(capital / cost <= capital) by (nonlinear_arith)
        requires
            cost > 0,
    ;
    let by_capital: u16 = (capital / cost) as u16;
    let by_liquidity: u16 = least_value(&request.ask_sizes) / 100;
    if by_liquidity < MIN_LIQUIDITY_CONTRACTS {
        return 0;
    }
    let contracts: u16 = if by_capital < by_liquidity { by_capital } else { by_liquidity };
    if contracts < MAX_CONTRACTS {
        contracts
    } else {
        MAX_CONTRACTS
    }
}

/// The markets in flight, and when an execution last ended.
pub struct ExecutionEngine {
    /// A bit for each market in flight.
    pub in_flight: Vec<u64>,
    pub last_execution_ns: u64,
    pub dry_run: bool,
}

impl ExecutionEngine {
    /// There is a bit for every market.
    pub open spec fn wf(self) -> bool {
        self.in_flight.len() == IN_FLIGHT_WORDS
    }

    /// The markets in flight.
    pub open spec fn flying(self) -> Set<int> {
        flagged(self.in_flight@)
    }

    /// Whether it is asked at `start_ns` how many contracts a request is good
    /// for: no cooldown, no execution in its market, and enough profit.
    pub open spec fn is_sized(self, request: ExecutionRequest, start_ns: u64) -> bool {
        &&& start_ns - self.last_execution_ns >= COOLDOWN_NS
        &&& !self.flying().contains(request.market_id as int)
        &&& request.expected_profit_cents >= config::min_profit(request.ask_prices.len() as int)
    }

    /// Why a request is passed over at `start_ns`, if it is.
    pub open spec fn skip_cause(
        self,
        request: ExecutionRequest,
        breaker: CircuitBreaker,
        start_ns: u64,
    ) -> Option<SkipCause> {
        let contracts = size_for(request, breaker);
        if start_ns - self.last_execution_ns < COOLDOWN_NS {
            Some(SkipCause::Cooldown)
        } else if self.flying().contains(request.market_id as int) {
            Some(SkipCause::InFlight)
        } else if request.expected_profit_cents < config::min_profit(
            request.ask_prices.len() as int,
        ) {
            Some(SkipCause::LowProfit)
        } else if contracts < 1 {
            Some(SkipCause::NoSize)
        } else if breaker.refusal(request.condition_id@, contracts) is Some {
            Some(SkipCause::Breaker)
        } else {
            None
        }
    }

    /// How a request is executed that is not passed over.
    pub open spec fn mode(self, paper: bool) -> ExecutionMode {
        if paper {
            ExecutionMode::Paper
        } else if self.dry_run {
            ExecutionMode::DryRun
        } else {
            ExecutionMode::Live
        }
    }

    /// Nothing in flight.
    pub fn new(dry_run: bool) -> (r: Self)
        ensures
            r.wf(),
            r.flying() == Set::<int>::empty(),
            r.last_execution_ns == 0,
            r.dry_run == dry_run,
    {
        let mut words: Vec<u64> = Vec::new();
        let mut i: usize = 0;
        while i < IN_FLIGHT_WORDS
            invariant
                i <= IN_FLIGHT_WORDS,
                words.len() == i,
                forall|j: int| 0 <= j < i ==> #[trigger] words@[j] == 0,
            decreases IN_FLIGHT_WORDS - i,
        {
            words.push(0);
            i = i + 1;
        }
        proof {
            assert forall|id: int| 0 <= id < IN_FLIGHT_MARKETS implies !has_flag(words@, id) by {
                let bit = (id % 64) as u64;
                assert(words@[id / 64] == 0);
                assert(!has_bit(0, bit)) by {
                    assert((0u64 >> bit) & 1 == 0) by (bit_vector);
                }
            }
            assert(flagged(words@) =~= Set::empty());
        }
        ExecutionEngine { in_flight: words, last_execution_ns: 0, dry_run }
    }

    fn claim(&mut self, market_id: u16) -> (r: bool)
        requires
            old(self).wf(),
        ensures
            final(self).wf(),
            r == !old(self).flying().contains(market_id as int),
            final(self).flying() == (if market_id < IN_FLIGHT_MARKETS {
                old(self).flying().insert(market_id as int)
            } else {
                old(self).flying()
            }),
            final(self).last_execution_ns == old(self).last_execution_ns,
            final(self).dry_run == old(self).dry_run,
    {
        if market_id >= IN_FLIGHT_MARKETS {
            return true;
        }
        let slot: usize = (market_id / 64) as usize;
        let bit: u64 = (market_id % 64) as u64;
        let word: u64 = self.in_flight[slot];
        let ghost before = self.in_flight@;
        let mask: u64 = 1u64 << bit;
        self.in_flight.set(slot, word | mask);
        proof {
            lemma_set_bit(word, bit, bit);
            assert forall|id: int| 0 <= id < IN_FLIGHT_MARKETS implies #[trigger] has_flag(
                self.in_flight@,
                id,
            ) == (id == market_id || has_flag(before, id)) by {
                if id / 64 == slot {
                    lemma_set_bit(word, bit, (id % 64) as u64);
                }
            }
            assert(flagged(self.in_flight@) =~= flagged(before).insert(market_id as int));
        }
        word & mask == 0
    }

    /// Takes a market out of flight.
    pub fn release_in_flight(&mut self, market_id: u16)
        requires
            old(self).wf(),
        ensures
            final(self).wf(),
            final(self).flying() == old(self).flying().remove(market_id as int),
            final(self).last_execution_ns == old(self).last_execution_ns,
            final(self).dry_run == old(self).dry_run,
    {
        if market_id >= IN_FLIGHT_MARKETS {
            assert(self.flying().remove(market_id as int) =~= self.flying());
            return;
        }
        let slot: usize = (market_id / 64) as usize;
        let bit: u64 = (market_id % 64) as u64;
        let word: u64 = self.in_flight[slot];
        let ghost before = self.in_flight@;
        let mask: u64 = 1u64 << bit;
        self.in_flight.set(slot, word & !mask);
        proof {
            assert forall|id: int| 0 <= id < IN_FLIGHT_MARKETS implies #[trigger] has_flag(
                self.in_flight@,
                id,
            ) == (id != market_id && has_flag(before, id)) by {
                if id / 64 == slot {
                    lemma_clear_bit(word, bit, (id % 64) as u64);
                }
            }
            assert(flagged(self.in_flight@) =~= flagged(before).remove(market_id as int));
        }
    }

    fn is_flying(&self, market_id: u16) -> (r: bool)
        requires
            self.wf(),
        ensures
            r == self.flying().contains(market_id as int),
    {
        if market_id >= IN_FLIGHT_MARKETS {
            return false;
        }
        let bit: u64 = (market_id % 64) as u64;
        (self.in_flight[(market_id / 64) as usize] >> bit) & 1 == 1
    }

    /// Whether it is asked how many contracts a request is good for: no
    /// cooldown, no execution in its market, and enough profit.
    pub fn comes_to_size(&self, request: &ExecutionRequest, start_ns: u64) -> (r: bool)
        requires
            self.wf(),
            start_ns >= self.last_execution_ns,
        ensures
            r == self.is_sized(*request, start_ns),
    {
        let min_profit: u16 = config::min_profit_for_outcomes(request.ask_prices.len());
        start_ns - self.last_execution_ns >= COOLDOWN_NS && !self.is_flying(request.market_id)
            && request.expected_profit_cents >= min_profit as i16
    }

    /// Decides on a request. Where it goes ahead, its market is in flight from
    /// then on; where it is passed over, nothing changes.
    pub fn process(
        &mut self,
        request: &ExecutionRequest,
        breaker: &CircuitBreaker,
        paper: bool,
        start_ns: u64,
    ) -> (r: Result<ExecutionPlan, ExecutionResult>)
        requires
            old(self).wf(),
            start_ns >= old(self).last_execution_ns,
            old(self).is_sized(*request, start_ns) ==> {
                &&& breaker.current_capital_cents >= i64::MIN + circuit_breaker::reserve()
                &&& available_capital(*breaker) > 0 ==> seqs::total(request.ask_prices@) <= u32::MAX
                &&& size_for(*request, *breaker) >= 1 ==> breaker.counts_fit(
                    request.condition_id@,
                    size_for(*request, *breaker),
                )
            },
        ensures
            final(self).wf(),
            final(self).last_execution_ns == old(self).last_execution_ns,
            final(self).dry_run == old(self).dry_run,
            match old(self).skip_cause(*request, *breaker, start_ns) {
                Some(cause) => {
                    &&& r matches Err(result) && result.is_skipped(
                        request.market_id,
                        cause_text(cause),
                    )
                    &&& final(self).flying() == old(self).flying()
                },
                None => {
                    &&& r matches Ok(plan) && plan.mode == old(self).mode(paper) && plan.contracts
                        == size_for(*request, *breaker)
                    &&& final(self).flying() == (if request.market_id < IN_FLIGHT_MARKETS {
                        old(self).flying().insert(request.market_id as int)
                    } else {
                        old(self).flying()
                    })
                },
            },
    {
        let market_id: u16 = request.market_id;
        if start_ns - self.last_execution_ns < COOLDOWN_NS {
            return Err(ExecutionResult::skipped(market_id, SkipCause::Cooldown.text()));
        }
        let ghost before = self.flying();
        if !self.claim(market_id) {
            assert(self.flying() =~= before);
            return Err(ExecutionResult::skipped(market_id, SkipCause::InFlight.text()));
        }
        let ghost claimed = self.flying();
        assert(claimed.remove(market_id as int) =~= before);
        let min_profit: u16 = config::min_profit_for_outcomes(request.ask_prices.len());
        if request.expected_profit_cents < min_profit as i16 {
            self.release_in_flight(market_id);
            return Err(ExecutionResult::skipped(market_id, SkipCause::LowProfit.text()));
        }
        let contracts: u16 = calculate_position_size(request, breaker.available_capital_cents());
        if contracts < 1 {
            self.release_in_flight(market_id);
            return Err(ExecutionResult::skipped(market_id, SkipCause::NoSize.text()));
        }
        match breaker.can_execute(request.condition_id.as_str(), contracts as i64) {
            Ok(()) => {},
            Err(_) => {
                self.release_in_flight(market_id);
                return Err(ExecutionResult::skipped(market_id, SkipCause::Breaker.text()));
            },
        }
        let mode: ExecutionMode = if paper {
            ExecutionMode::Paper
        } else if self.dry_run {
            ExecutionMode::DryRun
        } else {
            ExecutionMode::Live
        };
        Ok(ExecutionPlan { mode, contracts })
    }
}

// ---------------------------------------------------------------------------
// Simulated and dry executions
// ---------------------------------------------------------------------------

/// How many outcomes of a request have a token, a price and a size.
pub open spec fn complete_outcomes(request: ExecutionRequest) -> int {
    smaller(
        smaller(request.token_ids.len() as int, request.ask_prices.len() as int),
        request.ask_sizes.len() as int,
    )
}

/// The outcome at a place of a request: prices and sizes in dollars, and a bid
/// one cent below the ask.
pub open spec fn requested_outcome<Q: Quantity>(request: ExecutionRequest, i: int) -> OutcomeView<Q> {
    let hundred = Q::from_int_spec(100);
    let price = Q::from_int_spec(request.ask_prices@[i] as i128);
    OutcomeView {
        name: "Outcome "@ + text::decimal_text((i + 1) as nat),
        token_id: request.token_ids@[i]@,
        ask_price: price.over_spec(hundred),
        ask_size: Q::from_int_spec(request.ask_sizes@[i] as i128).over_spec(hundred),
        bid_price: price.minus_spec(Q::from_int_spec(1)).over_spec(hundred),
    }
}

/// The market of a request, as the simulation takes it.
pub open spec fn requested_market<Q: Quantity>(request: ExecutionRequest, now: Timestamp) -> MarketView<
    Q,
> {
    MarketView {
        condition_id: request.condition_id@,
        question: "Market "@ + text::decimal_text(request.market_id as nat),
        slug: Seq::empty(),
        outcomes: Seq::new(
            complete_outcomes(request) as nat,
            |i: int| requested_outcome(request, i),
        ),
        volume_usd: Q::from_int_spec(100_000),
        liquidity_usd: Q::from_int_spec(10_000),
        created_at: None,
        end_date: None,
        category: MarketCategory::Other,
        active: true,
        closed: false,
        is_new: false,
        last_updated: now,
        tags: Seq::empty(),
    }
}

/// Makes the market of a request for the simulation.
pub fn build_tracked_market<Q: Quantity>(request: &ExecutionRequest, now: Timestamp) -> (r:
    TrackedMarket<Q>)
    requires
        request.token_ids.len() < usize::MAX,
    ensures
        r@ == requested_market::<Q>(*request, now),
{
    let mut outcomes: Vec<Outcome<Q>> = Vec::new();
    let mut i: usize = 0;
    while i < request.token_ids.len() && i < request.ask_prices.len() && i
        < request.ask_sizes.len()
        invariant
            request.token_ids.len() < usize::MAX,
            i <= request.token_ids.len(),
            i <= request.ask_prices.len(),
            i <= request.ask_sizes.len(),
            outcomes.len() == i,
            forall|j: int|
                0 <= j < i ==> (#[trigger] outcomes@[j])@ == requested_outcome::<Q>(*request, j),
        decreases request.token_ids.len() - i,
    {
        let mut name: String = "Outcome ".to_string();
        name.append(text::decimal(i as u64 + 1).as_str());
        let price: Q = Q::from_int(request.ask_prices[i] as i128);
        outcomes.push(
            Outcome {
                name,
                token_id: request.token_ids[i].clone(),
                ask_price: price.over(Q::from_int(100)),
                ask_size: Q::from_int(request.ask_sizes[i] as i128).over(Q::from_int(100)),
                bid_price: price.minus(Q::from_int(1)).over(Q::from_int(100)),
            },
        );
        i = i + 1;
    }
    let mut question: String = "Market ".to_string();
    question.append(text::decimal(request.market_id as u64).as_str());
    let market = TrackedMarket {
        condition_id: request.condition_id.clone(),
        question,
        slug: String::new(),
        outcomes,
        volume_usd: Q::from_int(100_000),
        liquidity_usd: Q::from_int(10_000),
        created_at: None,
        end_date: None,
        category: MarketCategory::Other,
        active: true,
        closed: false,
        is_new: false,
        last_updated: now,
        tags: Vec::new(),
    };
    assert(market@.outcomes =~= requested_market::<Q>(*request, now).outcomes);
    assert(market@.tags =~= Seq::empty());
    market
}

// ---------------------------------------------------------------------------
// Orders and fills
// ---------------------------------------------------------------------------

/// An order to buy at once what is on offer, and no more later.
#[derive(Debug)]
pub struct OrderPlan<Q> {
    pub token_id: String,
    /// Limit price in dollars.
    pub price: Q,
    /// Contracts.
    pub size: Q,
}

/// What became of an order.
#[derive(Debug)]
pub enum OrderOutcome<Q> {
    Filled { size: Q, cost: Q },
    Failed,
    TimedOut,
}

/// What an order brought.
#[derive(Debug)]
pub struct FillResult<Q> {
    pub token_id: String,
    /// Contracts bought.
    pub filled: Q,
    /// Dollars paid.
    pub cost: Q,
    pub success: bool,
}

/// The order for an outcome of a request.
pub open spec fn order_for<Q: Quantity>(
    request: ExecutionRequest,
    contracts: u16,
    i: int,
) -> OrderPlan<Q> {
    OrderPlan {
        token_id: request.token_ids@[i],
        price: Q::from_int_spec(request.ask_prices@[i] as i128).over_spec(Q::from_int_spec(100)),
        size: Q::from_int_spec(contracts as i128),
    }
}

/// What an order brought: nothing where it failed or took too long.
pub open spec fn brought<Q: Quantity>(outcome: OrderOutcome<Q>) -> (Q, Q, bool) {
    match outcome {
        OrderOutcome::Filled { size, cost } => (size, cost, true),
        _ => (Q::zero_spec(), Q::zero_spec(), false),
    }
}

/// Plans one order for each outcome that has a token and a price.
pub fn plan_orders<Q: Quantity>(request: &ExecutionRequest, contracts: u16) -> (r: Vec<OrderPlan<Q>>)
    ensures
        forall|i: int|
            0 <= i < r.len() ==> (#[trigger] r@[i]) == order_for::<Q>(*request, contracts, i),
        r.len() == smaller(request.token_ids.len() as int, request.ask_prices.len() as int),
        forall|i: int|
            0 <= i < r.len() ==> (#[trigger] r@[i]) == (OrderPlan {
                token_id: request.token_ids@[i],
                price: Q::from_int_spec(request.ask_prices@[i] as i128).over_spec(
                    Q::from_int_spec(100),
                ),
                size: Q::from_int_spec(contracts as i128),
            }),
{
    let mut orders: Vec<OrderPlan<Q>> = Vec::new();
    let mut i: usize = 0;
    while i < request.token_ids.len() && i < request.ask_prices.len()
        invariant
            i <= request.token_ids.len(),
            i <= request.ask_prices.len(),
            orders.len() == i,
            forall|j: int|
                0 <= j < i ==> (#[trigger] orders@[j]) == (OrderPlan {
                    token_id: request.token_ids@[j],
                    price: Q::from_int_spec(request.ask_prices@[j] as i128).over_spec(
                        Q::from_int_spec(100),
                    ),
                    size: Q::from_int_spec(contracts as i128),
                }),
        decreases request.token_ids.len() - i,
    {
        orders.push(
            OrderPlan {
                token_id: request.token_ids[i].clone(),
                price: cents_to_price(request.ask_prices[i]),
                size: Q::from_int(contracts as i128),
            },
        );
        i = i + 1;
    }
    orders
}

/// Notes what an order brought: nothing where it failed or took too long.
pub fn fill_result<Q: Quantity>(token_id: String, outcome: OrderOutcome<Q>) -> (r: FillResult<Q>)
    ensures
        r.token_id == token_id,
        (r.filled, r.cost, r.success) == brought(outcome),
        match outcome {
            OrderOutcome::Filled { size, cost } => r.filled == size && r.cost == cost && r.success,
            _ => r.filled == Q::zero_spec() && r.cost == Q::zero_spec() && !r.success,
        },
{
    match outcome {
        OrderOutcome::Filled { size, cost } => FillResult {
            token_id,
            filled: size,
            cost,
            success: true,
        },
        _ => FillResult { token_id, filled: Q::zero(), cost: Q::zero(), success: false },
    }
}

/// What some fills cost, in dollars each.
pub open spec fn costs<Q: Quantity>(fills: Seq<FillResult<Q>>) -> Seq<Q> {
    fills.map_values(|f: FillResult<Q>| f.cost)
}

/// What some fills cost together, in whole cents.
pub open spec fn total_cost<Q: Quantity>(fills: Seq<FillResult<Q>>) -> int {
    market_scanner::sum_up(costs(fills)).times_spec(Q::from_int_spec(100)).truncated_spec(
        0,
        u32::MAX as i128,
    ) as int
}

/// The test for fills that brought something.
pub open spec fn bought<Q: Quantity>() -> spec_fn(FillResult<Q>) -> bool {
    |f: FillResult<Q>| Q::zero_spec().below_spec(f.filled)
}

/// The whole contracts that a fill brought.
pub open spec fn whole_contracts<Q: Quantity>(fill: FillResult<Q>) -> u16 {
    fill.filled.truncated_spec(0, u16::MAX as i128) as u16
}

/// The whole contracts of which every fill brought at least as many.
pub open spec fn matched_contracts<Q: Quantity>(fills: Seq<FillResult<Q>>) -> int {
    seqs::least(fills.map_values(|f: FillResult<Q>| whole_contracts(f))) as int
}

/// `n` of 32 bits without a sign, as 32 bits in two's complement.
pub open spec fn low_i32(n: int) -> int {
    if n < 0x8000_0000 {
        n
    } else {
        n - 0x1_0000_0000
    }
}

/// What is left of a dollar for each matched contract after the cost, before it
/// is brought to 16 bits.
pub open spec fn payout_less_cost(matched: int, cost: int) -> int {
    matched * 100 - low_i32(cost)
}

/// The profit of some fills in cents: 0 where nothing was matched. It is taken
/// in 16 bits.
pub open spec fn fills_profit(matched: int, cost: int) -> int {
    if matched > 0 {
        types::low_i16(payout_less_cost(matched, cost))
    } else {
        0
    }
}

/// What matched contracts pay: a dollar each, in cents.
pub open spec fn payout_cents(matched: int) -> int {
    matched * 100
}

/// The fills in figures.
#[derive(Clone, Copy, Debug, PartialEq, Eq, Structural)]
pub struct FillSummary {
    /// Fills that brought something.
    pub filled_outcomes: usize,
    /// Contracts of which every fill brought at least as many.
    pub matched: u16,
    pub total_cost_cents: u32,
}

/// Sums fills up.
pub fn summarize_fills<Q: Quantity>(fills: &Vec<FillResult<Q>>) -> (r: FillSummary)
    ensures
        r.filled_outcomes == seqs::count(fills@, bought()),
        r.matched == matched_contracts(fills@),
        r.total_cost_cents == total_cost(fills@),
{
    let ghost paid = costs(fills@);
    let ghost got = fills@.map_values(|f: FillResult<Q>| whole_contracts(f));
    let mut filled_outcomes: usize = 0;
    let mut matched: u16 = 0;
    let mut cost: Q = Q::zero();
    let mut i: usize = 0;
    proof {
        assert(fills@.take(0) =~= Seq::empty());
        assert(paid.take(0) =~= Seq::empty());
        assert(got.take(0) =~= Seq::empty());
    }
    while i < fills.len()
        invariant
            paid == costs(fills@),
            got == fills@.map_values(|f: FillResult<Q>| whole_contracts(f)),
            filled_outcomes <= i <= fills.len(),
            filled_outcomes == seqs::count(fills@.take(i as int), bought()),
            matched == seqs::least(got.take(i as int)),
            cost == market_scanner::sum_up(paid.take(i as int)),
        decreases fills.len() - i,
    {
        proof {
            seqs::lemma_count_next(fills@, bought(), i as int);
            assert(got.take(i + 1).drop_last() =~= got.take(i as int));
            assert(paid.take(i + 1).drop_last() =~= paid.take(i as int));
        }
        let fill = &fills[i];
        if Q::zero().below(fill.filled) {
            filled_outcomes = filled_outcomes + 1;
        }
        let whole: u16 = fill.filled.truncated(0, u16::MAX as i128) as u16;
        if i == 0 || whole < matched {
            matched = whole;
        }
        cost = cost.plus(fill.cost);
        i = i + 1;
    }
    proof {
        assert(fills@.take(i as int) =~= fills@);
        assert(paid.take(i as int) =~= paid);
        assert(got.take(i as int) =~= got);
    }
    let total_cost_cents: u32 = cost.times(Q::from_int(100)).truncated(0, u32::MAX as i128) as u32;
    FillSummary { filled_outcomes, matched, total_cost_cents }
}

/// The profit of some fills in cents.
pub fn profit_of_fills(matched: u16, total_cost_cents: u32) -> (r: i16)
    requires
        matched > 0 ==> i32::MIN <= payout_less_cost(matched as int, total_cost_cents as int)
            <= i32::MAX,
    ensures
        r == fills_profit(matched as int, total_cost_cents as int),
{
    if matched == 0 {
        return 0;
    }
    let cost: i64 = if total_cost_cents < 0x8000_0000 {
        total_cost_cents as i64
    } else {
        total_cost_cents as i64 - 0x1_0000_0000
    };
    let left: i64 = matched as i64 * 100 - cost;
    let low: i64 = (left + 0x1_0000_0000) % 0x1_0000;
    proof {
        lemma_mod_multiples_vanish(0x1_0000, left as int, 0x1_0000);
        assert(low == left as int % 0x1_0000);
    }
    if low < 0x8000 {
        low as i16
    } else {
        (low - 0x1_0000) as i16
    }
}

/// Whether an execution is a success: every outcome brought something, and
/// there is a profit.
pub open spec fn is_filled<Q: Quantity>(
    request: ExecutionRequest,
    fills: Seq<FillResult<Q>>,
) -> bool {
    &&& seqs::count(fills, bought::<Q>()) == request.ask_prices.len()
    &&& fills_profit(matched_contracts(fills), total_cost(fills)) > 0
}

impl ExecutionEngine {
    /// Ends a simulated execution.
    pub fn finish_paper(
        &mut self,
        request: &ExecutionRequest,
        simulated: SimulatedResult,
        contracts: u16,
        start_ns: u64,
        now_ns: u64,
    ) -> (r: ExecutionResult)
        requires
            old(self).wf(),
            start_ns <= now_ns,
        ensures
            final(self).wf(),
            final(self).flying() == old(self).flying(),
            final(self).last_execution_ns == now_ns,
            final(self).dry_run == old(self).dry_run,
            r == (ExecutionResult {
                market_id: request.market_id,
                success: simulated.success,
                profit_cents: simulated.actual_profit_cents,
                latency_ns: (now_ns - start_ns) as u64,
                filled_outcomes: simulated.filled_outcomes,
                total_outcomes: simulated.total_outcomes,
                contracts,
                error: if simulated.success {
                    None
                } else {
                    Some(simulated.reason)
                },
            }),
    {
        self.last_execution_ns = now_ns;
        ExecutionResult {
            market_id: request.market_id,
            success: simulated.success,
            profit_cents: simulated.actual_profit_cents,
            latency_ns: now_ns - start_ns,
            filled_outcomes: simulated.filled_outcomes,
            total_outcomes: simulated.total_outcomes,
            contracts,
            error: if simulated.success { None } else { Some(simulated.reason) },
        }
    }

    /// Ends an execution that was not made.
    pub fn finish_dry_run(
        &self,
        request: &ExecutionRequest,
        contracts: u16,
        start_ns: u64,
        now_ns: u64,
    ) -> (r: ExecutionResult)
        requires
            start_ns <= now_ns,
        ensures
            r.market_id == request.market_id,
            r.success,
            r.profit_cents == request.expected_profit_cents,
            r.latency_ns == now_ns - start_ns,
            r.filled_outcomes == request.ask_prices.len(),
            r.total_outcomes == request.ask_prices.len(),
            r.contracts == contracts,
            r.error matches Some(e) && e@ == "DRY_RUN"@,
    {
        ExecutionResult {
            market_id: request.market_id,
            success: true,
            profit_cents: request.expected_profit_cents,
            latency_ns: now_ns - start_ns,
            filled_outcomes: request.ask_prices.len(),
            total_outcomes: request.ask_prices.len(),
            contracts,
            error: Some("DRY_RUN".to_string()),
        }
    }

    /// Ends an execution with its fills. A success is entered with the breaker.
    pub fn finish_filled<Q: Quantity>(
        &mut self,
        breaker: &mut CircuitBreaker,
        request: &ExecutionRequest,
        fills: &Vec<FillResult<Q>>,
        start_ns: u64,
        now_ns: u64,
    ) -> (r: ExecutionResult)
        requires
            old(self).wf(),
            old(breaker).wf(),
            start_ns <= now_ns,
            is_filled(*request, fills@) ==> i64::MIN <= old(breaker).held_in(request.condition_id@)
                + matched_contracts(fills@) <= i64::MAX,
            matched_contracts(fills@) > 0 ==> i32::MIN <= payout_less_cost(
                matched_contracts(fills@),
                total_cost(fills@),
            ) <= i32::MAX,
        ensures
            final(self).wf(),
            final(self).flying() == old(self).flying(),
            final(self).last_execution_ns == now_ns,
            final(self).dry_run == old(self).dry_run,
            final(breaker).wf(),
            ({
                let matched = matched_contracts(fills@);
                let cost = total_cost(fills@);
                let profit = fills_profit(matched, cost);
                let filled = seqs::count(fills@, bought::<Q>());
                let success = is_filled(*request, fills@);
                &&& r.market_id == request.market_id
                &&& r.success == success
                &&& r.profit_cents == profit
                &&& r.latency_ns == now_ns - start_ns
                &&& r.filled_outcomes == filled
                &&& r.total_outcomes == request.ask_prices.len()
                &&& r.contracts == matched
                &&& success ==> r.error is None
                &&& !success ==> (r.error matches Some(e) && e@ == "Partial fill"@)
                &&& !success ==> *final(breaker) == *old(breaker)
                &&& success ==> {
                    let dollars = Q::from_int_spec(profit as i128).over_spec(
                        Q::from_int_spec(100),
                    );
                    old(breaker).with_success(
                        request.condition_id@,
                        matched,
                        circuit_breaker::cents_toward_zero(dollars) as i64,
                        cost as i64,
                        payout_cents(matched) as i64,
                        *final(breaker),
                    )
                }
            }),
    {
        self.last_execution_ns = now_ns;
        let summary: FillSummary = summarize_fills(fills);
        let matched: u16 = summary.matched;
        let profit: i16 = profit_of_fills(matched, summary.total_cost_cents);
        let success: bool = summary.filled_outcomes == request.ask_prices.len() && profit > 0;
        if success {
            let dollars: Q = Q::from_int(profit as i128).over(Q::from_int(100));
            breaker.record_success(
                request.condition_id.as_str(),
                matched as i64,
                matched as i64,
                dollars,
                summary.total_cost_cents as i64,
                matched as i64 * 100,
            );
        }
        ExecutionResult {
            market_id: request.market_id,
            success,
            profit_cents: profit,
            latency_ns: now_ns - start_ns,
            filled_outcomes: summary.filled_outcomes,
            total_outcomes: request.ask_prices.len(),
            contracts: matched,
            error: if success { None } else { Some("Partial fill".to_string()) },
        }
    }

    /// Ends an execution whose orders could not be sent, and counts the error
    /// with the breaker.
    pub fn finish_failed(
        &mut self,
        breaker: &mut CircuitBreaker,
        request: &ExecutionRequest,
        error: String,
        start_ns: u64,
        now_ns: u64,
    ) -> (r: ExecutionResult)
        requires
            old(self).wf(),
            old(breaker).wf(),
            old(breaker).consecutive_errors < i64::MAX,
            start_ns <= now_ns,
        ensures
            final(self).wf(),
            final(self).flying() == old(self).flying(),
            final(self).last_execution_ns == now_ns,
            final(self).dry_run == old(self).dry_run,
            final(breaker).wf(),
            old(breaker).with_error(now_ns, *final(breaker)),
            r == (ExecutionResult {
                market_id: request.market_id,
                success: false,
                profit_cents: 0,
                latency_ns: (now_ns - start_ns) as u64,
                filled_outcomes: 0,
                total_outcomes: request.ask_prices.len(),
                contracts: 0,
                error: Some(error),
            }),
    {
        self.last_execution_ns = now_ns;
        breaker.record_error(now_ns);
        ExecutionResult {
            market_id: request.market_id,
            success: false,
            profit_cents: 0,
            latency_ns: now_ns - start_ns,
            filled_outcomes: 0,
            total_outcomes: request.ask_prices.len(),
            contracts: 0,
            error: Some(error),
        }
    }
}

// ---------------------------------------------------------------------------
// Laws
// ---------------------------------------------------------------------------

/// While a market is in flight, every further request for it is passed over.
pub proof fn law_in_flight_is_not_executed_again(
    engine: ExecutionEngine,
    request: ExecutionRequest,
    breaker: CircuitBreaker,
    start_ns: u64,
)
    requires
        engine.flying().contains(request.market_id as int),
    ensures
        engine.skip_cause(request, breaker, start_ns) is Some,
{
}

/// A market that was put in flight and taken out again leaves no trace.
pub proof fn law_release_undoes_claim(flying: Set<int>, market_id: int)
    requires
        !flying.contains(market_id),
    ensures
        flying.insert(market_id).remove(market_id) == flying,
{
    assert(flying.insert(market_id).remove(market_id) =~= flying);
}

/// Two executions are at least a cooldown apart: right after one, every request
/// is passed over.
pub proof fn law_cooldown_spaces_executions(
    engine: ExecutionEngine,
    request: ExecutionRequest,
    breaker: CircuitBreaker,
    start_ns: u64,
)
    requires
        engine.last_execution_ns <= start_ns < engine.last_execution_ns + COOLDOWN_NS,
    ensures
        engine.skip_cause(request, breaker, start_ns) == Some(SkipCause::Cooldown),
{
}

/// Real orders are sent only where trades are neither simulated nor dry.
pub proof fn law_live_only_where_asked_for(engine: ExecutionEngine, paper: bool)
    ensures
        engine.mode(paper) is Live <==> !paper && !engine.dry_run,
{
}

/// No request that the breaker refuses is executed, whatever else holds.
pub proof fn law_breaker_is_obeyed(
    engine: ExecutionEngine,
    request: ExecutionRequest,
    breaker: CircuitBreaker,
    start_ns: u64,
)
    requires
        breaker.refusal(request.condition_id@, size_for(request, breaker)) is Some,
    ensures
        engine.skip_cause(request, breaker, start_ns) is Some,
{
}

/// An execution never costs more than the capital for one arbitrage or than the
/// available capital, buys no more than is on offer, and at most
/// `MAX_CONTRACTS` contracts of each outcome.
pub proof fn law_position_is_within_limits(
    prices: Seq<u16>,
    sizes: Seq<u16>,
    available_cents: int,
)
    requires
        0 <= available_cents < 0x1_0000_0000,
    ensures
        ({
            let n = position_size(prices, sizes, available_cents);
            &&& 0 <= n <= MAX_CONTRACTS
            &&& n * seqs::total(prices) <= config::capital_per_arb()
            &&& n * seqs::total(prices) <= available_cents
            &&& forall|i: int| 0 <= i < sizes.len() ==> n * 100 <= #[trigger] sizes[i]
        }),
{
    let n = position_size(prices, sizes, available_cents);
    let cost = seqs::total(prices);
    let capital = smaller(config::capital_per_arb(), available_cents % 0x1_0000_0000);
    seqs::lemma_total_nonnegative(prices);
    if n > 0 {
        assert(n * cost <= capital) by (nonlinear_arith)
            requires
                0 < cost,
                0 <= capital,
                n <= capital / cost,
        ;
        seqs::lemma_least(sizes);
        assert forall|i: int| 0 <= i < sizes.len() implies n * 100 <= #[trigger] sizes[i] by {
            assert(seqs::least(sizes) <= sizes[i]);
        }
    } else {
        assert(n == 0) by {
            if n < 0 {
                assert(capital / cost >= 0) by (nonlinear_arith)
                    requires
                        capital >= 0,
                        cost > 0,
                ;
            }
        }
        assert(n * cost == 0) by (nonlinear_arith)
            requires
                n == 0,
        ;
    }
}

/// Where 16 bits hold it, the profit of fills is what a dollar for each matched
/// contract leaves over their cost.
pub proof fn law_profit_is_payout_less_cost(matched: int, cost: int)
    requires
        matched > 0,
        0 <= cost < 0x8000_0000,
        i16::MIN <= matched * 100 - cost <= i16::MAX,
    ensures
        fills_profit(matched, cost) == matched * 100 - cost,
{
}

/// Where every order is filled at its price, each set of outcomes earns what is
/// left of a dollar.
pub proof fn law_full_fill_earns_the_expected_profit(contracts: int, cost_of_set: int)
    requires
        0 < contracts <= MAX_CONTRACTS,
        0 <= cost_of_set < 100,
    ensures
        fills_profit(contracts, contracts * cost_of_set) == contracts * (100 - cost_of_set),
{
    assert(contracts * (100 - cost_of_set) == contracts * 100 - contracts * cost_of_set)
        by (nonlinear_arith);
    assert(0 <= contracts * cost_of_set <= 100 * 100) by (nonlinear_arith)
        requires
            0 < contracts <= 100,
            0 <= cost_of_set < 100,
    ;
    law_profit_is_payout_less_cost(contracts, contracts * cost_of_set);
}

/// The size is the greatest that the limits allow: where capital is available,
/// the outcomes cost less than a dollar together and at least ten contracts of
/// each are on offer, one more would cost more than the capital for one
/// arbitrage or than is available, or is not on offer, or is beyond the largest
/// number for one execution.
pub proof fn law_position_is_the_greatest(prices: Seq<u16>, sizes: Seq<u16>, available_cents: int)
    requires
        0 < available_cents < 0x1_0000_0000,
        1 <= seqs::total(prices) <= 99,
        sizes.len() > 0,
        forall|i: int| 0 <= i < sizes.len() ==> #[trigger] sizes[i] >= 1000,
    ensures
        ({
            let more = position_size(prices, sizes, available_cents) + 1;
            ||| more * seqs::total(prices) > 5000
            ||| more * seqs::total(prices) > available_cents
            ||| exists|i: int| 0 <= i < sizes.len() && more * 100 > #[trigger] sizes[i]
            ||| more > 100
        }),
{
    let n = position_size(prices, sizes, available_cents);
    let cost = seqs::total(prices);
    let capital = smaller(config::capital_per_arb(), available_cents % 0x1_0000_0000);
    seqs::lemma_least(sizes);
    let at = choose|i: int| 0 <= i < sizes.len() && sizes[i] == seqs::least(sizes);
    assert(sizes[at] >= 1000);
    let fits = capital / cost;
    assert((fits + 1) * cost > capital) by (nonlinear_arith)
        requires
            fits == capital / cost,
            cost > 0,
            capital >= 0,
    ;
    if n == fits {
        assert((n + 1) * cost > capital);
    } else if n == seqs::least(sizes) as int / 100 {
        assert((n + 1) * 100 > sizes[at]);
    }
}

/// Nothing is bought where no capital is available, where the outcomes cost
/// nothing or a dollar or more, or where fewer than ten contracts of an outcome
/// are on offer.
pub proof fn law_nothing_is_bought_without_an_arbitrage(
    prices: Seq<u16>,
    sizes: Seq<u16>,
    available_cents: int,
)
    requires
        available_cents <= 0 || seqs::total(prices) == 0 || seqs::total(prices) >= 100 || exists|
            i: int,
        | 0 <= i < sizes.len() && #[trigger] sizes[i] < 1000,
    ensures
        position_size(prices, sizes, available_cents) == 0,
{
    if available_cents > 0 && seqs::total(prices) != 0 && seqs::total(prices) < 100 {
        seqs::lemma_least(sizes);
        let i = choose|i: int| 0 <= i < sizes.len() && #[trigger] sizes[i] < 1000;
        assert(seqs::least(sizes) <= sizes[i]);
    }
}

/// More capital, or more on offer, never makes a position smaller.
pub proof fn law_position_grows_with_capital(
    prices: Seq<u16>,
    sizes: Seq<u16>,
    less_cents: int,
    more_cents: int,
)
    requires
        less_cents <= more_cents < 0x1_0000_0000,
    ensures
        position_size(prices, sizes, less_cents) <= position_size(prices, sizes, more_cents),
{
    let cost = seqs::total(prices);
    seqs::lemma_total_nonnegative(prices);
    if cost > 0 {
        let less = smaller(config::capital_per_arb(), less_cents % 0x1_0000_0000);
        let more = smaller(config::capital_per_arb(), more_cents % 0x1_0000_0000);
        if 0 < less_cents {
            assert(less / cost <= more / cost) by (nonlinear_arith)
                requires
                    less <= more,
                    cost > 0,
            ;
        } else if 0 < more_cents {
            assert(more / cost >= 0) by (nonlinear_arith)
                requires
                    more >= 0,
                    cost > 0,
            ;
        }
    }
}

/// The available capital and the reserve are the capital, where that is beyond
/// the reserve; there is none else.
pub proof fn law_reserve_is_kept_back(breaker: CircuitBreaker)
    ensures
        breaker.current_capital_cents >= 3000 ==> available_capital(breaker) + 3000
            == breaker.current_capital_cents,
        breaker.current_capital_cents < 3000 ==> available_capital(breaker) == 0,
{
}

/// A request goes ahead exactly where five seconds have passed, its market is not
/// in flight, it brings enough profit, some contracts can be bought, and the
/// breaker admits them.
pub proof fn law_request_goes_ahead(
    engine: ExecutionEngine,
    request: ExecutionRequest,
    breaker: CircuitBreaker,
    start_ns: u64,
)
    ensures
        engine.skip_cause(request, breaker, start_ns) is None <==> {
            let size = position_size(
                request.ask_prices@,
                request.ask_sizes@,
                available_capital(breaker),
            );
            &&& start_ns >= engine.last_execution_ns + 5_000_000_000
            &&& !engine.flying().contains(request.market_id as int)
            &&& request.expected_profit_cents >= config::min_profit(request.ask_prices.len() as int)
            &&& size >= 1
            &&& breaker.refusal(request.condition_id@, size) is None
        },
{
}

/// A cause holds wherever it is given, and no cause before it does.
pub proof fn law_causes_hold_in_order(
    engine: ExecutionEngine,
    request: ExecutionRequest,
    breaker: CircuitBreaker,
    start_ns: u64,
)
    ensures
        ({
            let cause = engine.skip_cause(request, breaker, start_ns);
            let size = position_size(
                request.ask_prices@,
                request.ask_sizes@,
                available_capital(breaker),
            );
            let cool = start_ns < engine.last_execution_ns + 5_000_000_000;
            let flies = engine.flying().contains(request.market_id as int);
            let low = request.expected_profit_cents < config::min_profit(
                request.ask_prices.len() as int,
            );
            &&& cause == Some(SkipCause::Cooldown) <==> cool
            &&& cause == Some(SkipCause::InFlight) <==> !cool && flies
            &&& cause == Some(SkipCause::LowProfit) <==> !cool && !flies && low
            &&& cause == Some(SkipCause::NoSize) <==> !cool && !flies && !low && size < 1
            &&& cause == Some(SkipCause::Breaker) <==> !cool && !flies && !low && size >= 1
                && breaker.refusal(request.condition_id@, size) is Some
            &&& size_for(request, breaker) == size
        }),
{
}

/// Trades are simulated exactly where that is asked for, and dry where orders are
/// not to be sent.
pub proof fn law_modes_exclude_each_other(engine: ExecutionEngine, paper: bool)
    ensures
        engine.mode(paper) is Paper <==> paper,
        engine.mode(paper) is DryRun <==> !paper && engine.dry_run,
{
}

/// Only a request's complete outcomes are bought in a simulation, each at its own
/// price and size, with a bid of a cent less.
pub proof fn law_requested_market_is_that_of_the_request(
    request: ExecutionRequest,
    now: Timestamp,
    i: int,
)
    requires
        0 <= i < request.token_ids.len(),
        i < request.ask_prices.len(),
        i < request.ask_sizes.len(),
    ensures
        ({
            let market = requested_market::<Decimal>(request, now);
            &&& i < market.outcomes.len()
            &&& market.outcomes.len() <= request.token_ids.len()
            &&& market.outcomes.len() <= request.ask_prices.len()
            &&& market.outcomes.len() <= request.ask_sizes.len()
            &&& market.outcomes[i].token_id == request.token_ids@[i]@
            &&& market.outcomes[i].ask_price.units == request.ask_prices@[i] * 10_000
            &&& market.outcomes[i].ask_size.units == request.ask_sizes@[i] * 10_000
            &&& market.outcomes[i].bid_price.units == request.ask_prices@[i] * 10_000 - 10_000
            &&& market.condition_id == request.condition_id@
            &&& market.last_updated == now
            &&& market.active && !market.closed
        }),
{
    let market = requested_market::<Decimal>(request, now);
    assert(market.outcomes[i] == requested_outcome::<Decimal>(request, i));
    let price = Decimal::from_int_spec(request.ask_prices@[i] as i128);
    let hundred = Decimal::from_int_spec(100);
    assert(hundred.units == 100_000_000);
    assert(price.units == request.ask_prices@[i] * 1_000_000);
}

proof fn lemma_requested_units(request: ExecutionRequest, now: Timestamp, k: int)
    requires
        request.token_ids.len() == request.ask_prices.len(),
        request.ask_sizes.len() == request.ask_prices.len(),
        0 <= k <= request.ask_prices.len(),
    ensures
        market_scanner::total_units(
            market_scanner::asks(requested_market::<Decimal>(request, now)).take(k),
        ) == seqs::total(request.ask_prices@.take(k)) * 10_000,
    decreases k,
{
    let asks = market_scanner::asks(requested_market::<Decimal>(request, now));
    if k > 0 {
        lemma_requested_units(request, now, k - 1);
        seqs::lemma_total_next(request.ask_prices@, k - 1);
        assert(asks.take(k).drop_last() =~= asks.take(k - 1));
        law_requested_market_is_that_of_the_request(request, now, k - 1);
        assert(asks.take(k).last() == asks[k - 1]);
        assert(asks[k - 1] == requested_market::<Decimal>(request, now).outcomes[k - 1].ask_price);
    }
}

/// The simulation expects of a request what is left of a dollar after its prices.
pub proof fn law_simulated_profit_is_that_of_the_request(request: ExecutionRequest, now: Timestamp)
    requires
        request.token_ids.len() == request.ask_prices.len(),
        request.ask_sizes.len() == request.ask_prices.len(),
        seqs::total(request.ask_prices@) < 100,
    ensures
        market_scanner::profit_cents(requested_market::<Decimal>(request, now)) == 100
            - seqs::total(request.ask_prices@),
{
    let market = requested_market::<Decimal>(request, now);
    let n = request.ask_prices.len() as int;
    let asks = market_scanner::asks(market);
    lemma_requested_units(request, now, n);
    assert(asks.take(n) =~= asks);
    assert(request.ask_prices@.take(n) =~= request.ask_prices@);
    assert forall|i: int| 0 <= i < market.outcomes.len() implies (
    #[trigger] market.outcomes[i]).ask_price.units >= 0 by {
        law_requested_market_is_that_of_the_request(request, now, i);
    }
    market_scanner::law_profit_is_a_dollar_less_the_cost(market);
}

/// Matched contracts are the most of which every fill brought as many: each has
/// them whole, and one has less than one more.
pub proof fn law_matched_is_what_every_fill_brought(fills: Seq<FillResult<Decimal>>)
    requires
        fills.len() > 0,
        forall|i: int|
            0 <= i < fills.len() ==> 0 <= (#[trigger] fills[i]).filled.units < 65_535_000_000,
    ensures
        forall|i: int|
            0 <= i < fills.len() ==> matched_contracts(fills) * 1_000_000 <= (
            #[trigger] fills[i]).filled.units,
        exists|i: int|
            0 <= i < fills.len() && (#[trigger] fills[i]).filled.units < (matched_contracts(fills)
                + 1) * 1_000_000,
{
    let got = fills.map_values(|f: FillResult<Decimal>| whole_contracts(f));
    seqs::lemma_least(got);
    assert forall|i: int| 0 <= i < fills.len() implies matched_contracts(fills) * 1_000_000 <= (
    #[trigger] fills[i]).filled.units by {
        assert(got[i] == whole_contracts(fills[i]));
        assert(seqs::least(got) <= got[i]);
    }
    let at = choose|i: int| 0 <= i < got.len() && got[i] == seqs::least(got);
    assert(got[at] == whole_contracts(fills[at]));
    assert(fills[at].filled.units < (matched_contracts(fills) + 1) * 1_000_000);
}

/// The cost of fills is the sum of their costs, in whole cents.
pub proof fn law_cost_is_that_of_all_fills(fills: Seq<FillResult<Decimal>>)
    requires
        forall|i: int| 0 <= i < fills.len() ==> (#[trigger] fills[i]).cost.units >= 0,
        market_scanner::total_units(costs(fills)) < 40_000_000_000_000,
    ensures
        total_cost(fills) * 10_000 <= market_scanner::total_units(costs(fills)) < (total_cost(fills)
            + 1) * 10_000,
{
    let paid = costs(fills);
    assert forall|i: int| 0 <= i < paid.len() implies (#[trigger] paid[i]).units >= 0 by {
        assert(paid[i] == fills[i].cost);
    }
    market_scanner::law_decimals_add_up(paid);
    let sum = market_scanner::sum_up(paid);
    let hundred = Decimal::from_int_spec(100);
    assert(hundred.units == 100_000_000);
    assert(sum.units * hundred.units == sum.units * 100_000_000);
    assert(sum.times_spec(hundred).units == sum.units * 100);
}

/// An execution is a success exactly where each outcome of the request brought
/// something and the dollars that the matched contracts pay exceed the cost.
pub proof fn law_success_takes_every_outcome_and_a_profit(
    request: ExecutionRequest,
    fills: Seq<FillResult<Decimal>>,
)
    requires
        fills.len() == request.ask_prices.len(),
        0 <= total_cost(fills),
        matched_contracts(fills) * 100 - total_cost(fills) <= i16::MAX,
        matched_contracts(fills) * 100 - total_cost(fills) >= i16::MIN,
    ensures
        is_filled(request, fills) <==> {
            &&& forall|i: int| 0 <= i < fills.len() ==> (#[trigger] fills[i]).filled.units > 0
            &&& matched_contracts(fills) > 0
            &&& matched_contracts(fills) * 100 > total_cost(fills)
        },
{
    seqs::lemma_count_all(fills, bought::<Decimal>());
    if matched_contracts(fills) > 0 {
        law_profit_is_payout_less_cost(matched_contracts(fills), total_cost(fills));
    }
}

/// Each outcome is ordered by its token, at its own ask price in dollars, and as
/// many contracts of one as of the other.
pub proof fn law_orders_are_at_the_ask(request: ExecutionRequest, contracts: u16, i: int, j: int)
    requires
        0 <= i < request.ask_prices.len(),
        0 <= i < request.token_ids.len(),
    ensures
        order_for::<Decimal>(request, contracts, i).token_id == request.token_ids@[i],
        order_for::<Decimal>(request, contracts, i).price.units == request.ask_prices@[i] * 10_000,
        order_for::<Decimal>(request, contracts, i).size.units == contracts * 1_000_000,
        order_for::<Decimal>(request, contracts, i).size == order_for::<Decimal>(
            request,
            contracts,
            j,
        ).size,
{
    let hundred = Decimal::from_int_spec(100);
    assert(hundred.units == 100_000_000);
    assert(Decimal::from_int_spec(request.ask_prices@[i] as i128).units == request.ask_prices@[i]
        * 1_000_000);
}

/// An order that failed or took too long brought nothing and cost nothing; one
/// that was filled brought its size for its cost.
pub proof fn law_only_filled_orders_bring_something(outcome: OrderOutcome<Decimal>)
    ensures
        outcome is Failed || outcome is TimedOut ==> brought(outcome).0.units == 0 && brought(
            outcome,
        ).1.units == 0 && !brought(outcome).2,
        outcome matches OrderOutcome::Filled { size, cost } ==> brought(outcome).0 == size
            && brought(outcome).1 == cost && brought(outcome).2,
{
}

/// Profit and cost make up the payout, and a matched contract more pays a dollar
/// more.
pub proof fn law_profit_and_cost_make_the_payout(matched: int, cost: int)
    requires
        matched > 0,
        0 <= cost < 0x8000_0000,
        i16::MIN <= payout_cents(matched) - cost <= i16::MAX,
    ensures
        fills_profit(matched, cost) + cost == payout_cents(matched),
        payout_cents(matched + 1) == payout_cents(matched) + 100,
        payout_cents(0) == 0,
{
}

/// Where nothing was matched there is no profit.
pub proof fn law_nothing_matched_earns_nothing(cost: int)
    ensures
        fills_profit(0, cost) == 0,
{
}

/// Every market that can be tracked can be kept from being executed twice: it is
/// in flight exactly where its bit is set.
pub proof fn law_every_market_can_be_in_flight(engine: ExecutionEngine, market_id: int)
    requires
        0 <= market_id < types::MAX_MARKETS,
    ensures
        market_id < 2048,
        engine.flying().contains(market_id) <==> (engine.in_flight@[market_id / 64] >> (market_id
            % 64) as u64) & 1 == 1,
{
}

} // verus!
