//! Risk limits: halts trading on losses and errors and bounds positions.

use vstd::prelude::*;
use vstd::string::*;

use crate::config;
use crate::config::TOTAL_CAPITAL_CENTS;
use crate::quantity::{Decimal, Quantity};
use crate::seqs;
use crate::text;

verus! {

/// The limits.
#[derive(Clone, Copy, Debug)]
pub struct CircuitBreakerConfig {
    /// Most contracts in one market.
    pub max_position_per_market: i64,
    /// Most contracts in all markets.
    pub max_total_position: i64,
    /// Largest loss of a day in cents.
    pub max_daily_loss_cents: i64,
    /// Errors in a row that halt trading.
    pub max_consecutive_errors: u32,
    /// Pause after a halt in seconds.
    pub cooldown_secs: u64,
    /// Whether the limits apply.
    pub enabled: bool,
}

/// The settings as texts, each where it is set.
#[derive(Debug)]
pub struct BreakerSettings {
    /// `CB_MAX_POSITION_PER_MARKET`
    pub max_position_per_market: Option<String>,
    /// `CB_MAX_TOTAL_POSITION`
    pub max_total_position: Option<String>,
    /// `CB_MAX_DAILY_LOSS`, in dollars
    pub max_daily_loss: Option<String>,
    /// `CB_MAX_CONSECUTIVE_ERRORS`
    pub max_consecutive_errors: Option<String>,
    /// `CB_COOLDOWN_SECS`
    pub cooldown_secs: Option<String>,
    /// `CB_ENABLED`
    pub enabled: Option<String>,
}

/// An integer setting, or its default where it is not set or not an integer.
pub open spec fn integer_setting(setting: Option<String>, low: int, high: int, default: int) -> int {
    match setting {
        Some(s) => match text::integer_within(s@, low, high) {
            Some(n) => n,
            None => default,
        },
        None => default,
    }
}

/// An unsigned setting, or its default where it is not set or not such a number.
pub open spec fn unsigned_setting(setting: Option<String>, high: int, default: int) -> int {
    match setting {
        Some(s) => match text::unsigned_within(s@, high) {
            Some(n) => n,
            None => default,
        },
        None => default,
    }
}

/// An amount of dollars as whole cents, toward zero.
pub open spec fn cents_toward_zero<Q: Quantity>(dollars: Q) -> i128 {
    dollars.times_spec(Q::from_int_spec(100)).truncated_spec(i64::MIN as i128, i64::MAX as i128)
}

/// The loss limit in cents, or its default where it is not set or not a number.
pub open spec fn loss_setting<Q: Quantity>(setting: Option<String>, default: int) -> int {
    match setting {
        Some(s) => match Q::parse_spec(s@) {
            Some(dollars) => cents_toward_zero(dollars) as int,
            None => default,
        },
        None => default,
    }
}

/// A switch is on unless it is set to "0" or, in any case of letters, "false".
pub open spec fn switch_setting(setting: Option<String>) -> bool {
    match setting {
        Some(s) => s@ != "0"@ && text::lowercase(s@) != "false"@,
        None => true,
    }
}

fn read_integer(setting: &Option<String>, default: i64) -> (r: i64)
    ensures
        r == integer_setting(*setting, i64::MIN as int, i64::MAX as int, default as int),
{
    match setting {
        Some(s) => match text::parse_integer(s.as_str(), i64::MIN as i128, i64::MAX as i128) {
            Some(n) => n as i64,
            None => default,
        },
        None => default,
    }
}

fn read_unsigned(setting: &Option<String>, high: u64, default: u64) -> (r: u64)
    requires
        default <= high,
    ensures
        r == unsigned_setting(*setting, high as int, default as int),
        r <= high,
{
    match setting {
        Some(s) => match text::parse_unsigned(s.as_str(), high) {
            Some(n) => n,
            None => default,
        },
        None => default,
    }
}

/// Converts dollars to whole cents, toward zero.
pub fn whole_cents<Q: Quantity>(dollars: Q) -> (r: i64)
    ensures
        r == cents_toward_zero(dollars),
{
    dollars.times(Q::from_int(100)).truncated(i64::MIN as i128, i64::MAX as i128) as i64
}

fn read_loss<Q: Quantity>(setting: &Option<String>, default: i64) -> (r: i64)
    ensures
        r == loss_setting::<Q>(*setting, default as int),
{
    match setting {
        Some(s) => match Q::parse(s.as_str()) {
            Some(dollars) => whole_cents(dollars),
            None => default,
        },
        None => default,
    }
}

/// Whether a switch is on, given its value and its value in lower case.
pub fn is_switch_on(value: &str, lowercase: &str) -> (r: bool)
    ensures
        r == (value@ != "0"@ && lowercase@ != "false"@),
{
    !text::same(value, "0") && !text::same(lowercase, "false")
}

fn read_switch(setting: &Option<String>) -> (r: bool)
    ensures
        r == switch_setting(*setting),
{
    match setting {
        Some(s) => {
            let lower: String = text::to_lowercase(s.as_str());
            is_switch_on(s.as_str(), lower.as_str())
        },
        None => true,
    }
}

/// Conservative limits for a capital of $100.
pub open spec fn conservative_limits() -> CircuitBreakerConfig {
    CircuitBreakerConfig {
        max_position_per_market: 50,
        max_total_position: 100,
        max_daily_loss_cents: 2000,
        max_consecutive_errors: 3,
        cooldown_secs: 600,
        enabled: true,
    }
}

impl CircuitBreakerConfig {
    /// The limits that the environment sets; each that it leaves out or garbles
    /// has its default.
    pub fn from_env<Q: Quantity>(settings: &BreakerSettings) -> (r: Self)
        ensures
            r.max_position_per_market == integer_setting(
                settings.max_position_per_market,
                i64::MIN as int,
                i64::MAX as int,
                100,
            ),
            r.max_total_position == integer_setting(
                settings.max_total_position,
                i64::MIN as int,
                i64::MAX as int,
                200,
            ),
            r.max_daily_loss_cents == loss_setting::<Q>(settings.max_daily_loss, 2000),
            r.max_consecutive_errors == unsigned_setting(
                settings.max_consecutive_errors,
                u32::MAX as int,
                5,
            ),
            r.cooldown_secs == unsigned_setting(settings.cooldown_secs, u64::MAX as int, 300),
            r.enabled == switch_setting(settings.enabled),
    {
        CircuitBreakerConfig {
            max_position_per_market: read_integer(&settings.max_position_per_market, 100),
            max_total_position: read_integer(&settings.max_total_position, 200),
            max_daily_loss_cents: read_loss::<Q>(&settings.max_daily_loss, 2000),
            max_consecutive_errors: read_unsigned(
                &settings.max_consecutive_errors,
                u32::MAX as u64,
                5,
            ) as u32,
            cooldown_secs: read_unsigned(&settings.cooldown_secs, u64::MAX, 300),
            enabled: read_switch(&settings.enabled),
        }
    }

    /// Conservative limits for a capital of $100.
    pub fn conservative() -> (r: Self)
        ensures
            r == conservative_limits(),
            r == (CircuitBreakerConfig {
                max_position_per_market: 50,
                max_total_position: 100,
                max_daily_loss_cents: 2000,
                max_consecutive_errors: 3,
                cooldown_secs: 600,
                enabled: true,
            }),
    {
        CircuitBreakerConfig {
            max_position_per_market: 50,
            max_total_position: 100,
            max_daily_loss_cents: 2000,
            max_consecutive_errors: 3,
            cooldown_secs: 600,
            enabled: true,
        }
    }
}

/// Why trading is refused.
#[derive(Debug, PartialEq)]
#[allow(inconsistent_fields)]
pub enum TripReason {
    MaxPositionPerMarket { market: String, position: i64, limit: i64 },
    MaxTotalPosition { position: i64, limit: i64 },
    MaxDailyLoss { loss_cents: i64, limit_cents: i64 },
    ConsecutiveErrors { count: u32, limit: u32 },
    ManualHalt,
    CapitalDepleted,
}

/// Why trading is refused, with texts and numbers as mathematical values.
pub enum Refusal {
    MaxPositionPerMarket { market: Seq<char>, position: int, limit: int },
    MaxTotalPosition { position: int, limit: int },
    MaxDailyLoss { loss_cents: int, limit_cents: int },
    ConsecutiveErrors { count: int, limit: int },
    ManualHalt,
    CapitalDepleted,
}

impl View for TripReason {
    type V = Refusal;

    open spec fn view(&self) -> Refusal {
        match *self {
            TripReason::MaxPositionPerMarket { market, position, limit } =>
                Refusal::MaxPositionPerMarket {
                market: market@,
                position: position as int,
                limit: limit as int,
            },
            TripReason::MaxTotalPosition { position, limit } => Refusal::MaxTotalPosition {
                position: position as int,
                limit: limit as int,
            },
            TripReason::MaxDailyLoss { loss_cents, limit_cents } => Refusal::MaxDailyLoss {
                loss_cents: loss_cents as int,
                limit_cents: limit_cents as int,
            },
            TripReason::ConsecutiveErrors { count, limit } => Refusal::ConsecutiveErrors {
                count: count as int,
                limit: limit as int,
            },
            TripReason::ManualHalt => Refusal::ManualHalt,
            TripReason::CapitalDepleted => Refusal::CapitalDepleted,
        }
    }
}

impl Clone for TripReason {
    fn clone(&self) -> (r: Self)
        ensures
            r == *self,
    {
        match self {
            TripReason::MaxPositionPerMarket { market, position, limit } =>
                TripReason::MaxPositionPerMarket {
                market: market.clone(),
                position: *position,
                limit: *limit,
            },
            TripReason::MaxTotalPosition { position, limit } => TripReason::MaxTotalPosition {
                position: *position,
                limit: *limit,
            },
            TripReason::MaxDailyLoss { loss_cents, limit_cents } => TripReason::MaxDailyLoss {
                loss_cents: *loss_cents,
                limit_cents: *limit_cents,
            },
            TripReason::ConsecutiveErrors { count, limit } => TripReason::ConsecutiveErrors {
                count: *count,
                limit: *limit,
            },
            TripReason::ManualHalt => TripReason::ManualHalt,
            TripReason::CapitalDepleted => TripReason::CapitalDepleted,
        }
    }
}

/// What a refusal says.
pub open spec fn refusal_text(reason: Refusal) -> Seq<char> {
    match reason {
        Refusal::MaxPositionPerMarket { market, position, limit } => "Max position per market: "@
            + market + " has "@ + text::signed_text(position) + " contracts (limit: "@
            + text::signed_text(limit) + ")"@,
        Refusal::MaxTotalPosition { position, limit } => "Max total position: "@
            + text::signed_text(position) + " contracts (limit: "@ + text::signed_text(limit)
            + ")"@,
        Refusal::MaxDailyLoss { loss_cents, limit_cents } => "Max daily loss: $"@
            + text::dollars_text(loss_cents) + " (limit: $"@ + text::dollars_text(limit_cents)
            + ")"@,
        Refusal::ConsecutiveErrors { count, limit } => "Consecutive errors: "@ + text::signed_text(
            count,
        ) + " (limit: "@ + text::signed_text(limit) + ")"@,
        Refusal::ManualHalt => "Manual halt triggered"@,
        Refusal::CapitalDepleted => "Capital depleted below reserve"@,
    }
}

impl TripReason {
    /// The reason in words.
    pub fn to_text(&self) -> (r: String)
        ensures
            r@ == refusal_text(self@),
    {
        match self {
            TripReason::MaxPositionPerMarket { market, position, limit } => {
                let held: String = text::signed_decimal(*position);
                let most: String = text::signed_decimal(*limit);
                let mut s: String = "Max position per market: ".to_string();
                s.append(market.as_str());
                s.append(" has ");
                s.append(held.as_str());
                s.append(" contracts (limit: ");
                s.append(most.as_str());
                s.append(")");
                s
            },
            TripReason::MaxTotalPosition { position, limit } => {
                let held: String = text::signed_decimal(*position);
                let most: String = text::signed_decimal(*limit);
                let mut s: String = "Max total position: ".to_string();
                s.append(held.as_str());
                s.append(" contracts (limit: ");
                s.append(most.as_str());
                s.append(")");
                s
            },
            TripReason::MaxDailyLoss { loss_cents, limit_cents } => {
                let lost: String = text::dollars(*loss_cents);
                let most: String = text::dollars(*limit_cents);
                let mut s: String = "Max daily loss: $".to_string();
                s.append(lost.as_str());
                s.append(" (limit: $");
                s.append(most.as_str());
                s.append(")");
                s
            },
            TripReason::ConsecutiveErrors { count, limit } => {
                let seen: String = text::decimal(*count as u64);
                let most: String = text::decimal(*limit as u64);
                let mut s: String = "Consecutive errors: ".to_string();
                s.append(seen.as_str());
                s.append(" (limit: ");
                s.append(most.as_str());
                s.append(")");
                s
            },
            TripReason::ManualHalt => "Manual halt triggered".to_string(),
            TripReason::CapitalDepleted => "Capital depleted below reserve".to_string(),
        }
    }
}

/// The position in one market.
#[derive(Clone, Copy, Debug, PartialEq, Eq, Structural)]
pub struct MarketPosition {
    pub contracts: i64,
    pub cost_cents: i64,
}

impl Default for MarketPosition {
    fn default() -> (r: Self)
        ensures
            r == (MarketPosition { contracts: 0, cost_cents: 0 }),
    {
        MarketPosition { contracts: 0, cost_cents: 0 }
    }
}

/// The markets of some positions.
pub open spec fn markets_of(positions: Seq<(String, MarketPosition)>) -> Seq<Seq<char>> {
    positions.map_values(|p: (String, MarketPosition)| p.0@)
}

/// The contracts of all positions together.
pub open spec fn contracts_held(positions: Seq<(String, MarketPosition)>) -> int
    decreases positions.len(),
{
    if positions.len() == 0 {
        0
    } else {
        contracts_held(positions.drop_last()) + positions.last().1.contracts
    }
}

/// The limits and what counts against them.
pub struct CircuitBreaker {
    pub config: CircuitBreakerConfig,
    pub halted: bool,
    /// When trading was halted, in nanoseconds of the monotonic clock.
    pub tripped_at: Option<u64>,
    pub trip_reason: Option<TripReason>,
    pub consecutive_errors: i64,
    pub daily_pnl_cents: i64,
    pub current_capital_cents: i64,
    /// The position in each market; no market stands twice.
    pub positions: Vec<(String, MarketPosition)>,
}

/// The capital in cents that is kept back.
pub open spec fn reserve() -> int {
    TOTAL_CAPITAL_CENTS * config::RESERVE_PCT / 100
}

impl CircuitBreaker {
    /// No market has two positions, errors are counted from 0, and a halt has
    /// a time and a reason.
    pub open spec fn wf(self) -> bool {
        &&& seqs::distinct(markets_of(self.positions@))
        &&& self.consecutive_errors >= 0
        &&& self.halted == (self.trip_reason is Some)
        &&& self.halted == (self.tripped_at is Some)
    }

    /// Where the market's position stands, or the number of positions.
    pub open spec fn place_of(self, market: Seq<char>) -> int {
        seqs::first_at(markets_of(self.positions@), market)
    }

    /// Whether the market has a position.
    pub open spec fn is_held(self, market: Seq<char>) -> bool {
        self.place_of(market) < self.positions.len()
    }

    /// The position in a market.
    pub open spec fn position_in(self, market: Seq<char>) -> MarketPosition {
        if self.is_held(market) {
            self.positions@[self.place_of(market)].1
        } else {
            MarketPosition { contracts: 0, cost_cents: 0 }
        }
    }

    /// The contracts held in a market.
    pub open spec fn held_in(self, market: Seq<char>) -> int {
        self.position_in(market).contracts as int
    }

    /// The contracts held in all markets.
    pub open spec fn held(self) -> int {
        contracts_held(self.positions@)
    }

    /// 64 bits hold what the limits are compared with for `contracts` more in
    /// a market: the market's position where one is asked for, the positions in
    /// all markets where that is within its limit, and the day's loss where
    /// those are within theirs.
    pub open spec fn counts_fit(self, market: Seq<char>, contracts: int) -> bool {
        let in_market = self.held_in(market) + contracts;
        let in_all = self.held() + contracts;
        self.config.enabled && !self.halted && self.current_capital_cents >= reserve() ==> {
            &&& i64::MIN <= in_market <= i64::MAX
            &&& in_market <= self.config.max_position_per_market ==> {
                &&& i64::MIN <= self.held() <= i64::MAX
                &&& i64::MIN <= in_all <= i64::MAX
                &&& in_all <= self.config.max_total_position ==> self.daily_pnl_cents > i64::MIN
            }
        }
    }

    /// Why `contracts` more in a market are refused, if they are.
    pub open spec fn refusal(self, market: Seq<char>, contracts: int) -> Option<Refusal> {
        if !self.config.enabled {
            None
        } else if self.halted {
            match self.trip_reason {
                Some(reason) => Some(reason@),
                None => Some(Refusal::ManualHalt),
            }
        } else if self.current_capital_cents < reserve() {
            Some(Refusal::CapitalDepleted)
        } else if self.held_in(market) + contracts > self.config.max_position_per_market {
            Some(
                Refusal::MaxPositionPerMarket {
                    market,
                    position: self.held_in(market) + contracts,
                    limit: self.config.max_position_per_market as int,
                },
            )
        } else if self.held() + contracts > self.config.max_total_position {
            Some(
                Refusal::MaxTotalPosition {
                    position: self.held() + contracts,
                    limit: self.config.max_total_position as int,
                },
            )
        } else if -self.daily_pnl_cents > self.config.max_daily_loss_cents {
            Some(
                Refusal::MaxDailyLoss {
                    loss_cents: -self.daily_pnl_cents,
                    limit_cents: self.config.max_daily_loss_cents as int,
                },
            )
        } else {
            None
        }
    }

    /// `after` is this breaker tripped at `now_ns` for `reason`, where limits apply.
    pub open spec fn tripped(self, reason: Refusal, now_ns: u64, after: Self) -> bool {
        if !self.config.enabled {
            after == self
        } else {
            &&& after.halted
            &&& after.tripped_at == Some(now_ns)
            &&& after.trip_reason matches Some(given) && given@ == reason
            &&& after.config == self.config
            &&& after.consecutive_errors == self.consecutive_errors
            &&& after.daily_pnl_cents == self.daily_pnl_cents
            &&& after.current_capital_cents == self.current_capital_cents
            &&& after.positions == self.positions
        }
    }

    /// `after` is this breaker with one more error at `now_ns`.
    pub open spec fn with_error(self, now_ns: u64, after: Self) -> bool {
        let errors = self.consecutive_errors + 1;
        let counted = CircuitBreaker { consecutive_errors: errors as i64, ..self };
        if errors >= self.config.max_consecutive_errors {
            counted.tripped(
                Refusal::ConsecutiveErrors {
                    count: errors % 0x1_0000_0000,
                    limit: self.config.max_consecutive_errors as int,
                },
                now_ns,
                after,
            )
        } else {
            after == counted
        }
    }

    /// `after` is this breaker with one more success: its profit in the day's, its
    /// cost and payout in the capital, its contracts in the market's position, and
    /// no errors in a row any more.
    pub open spec fn with_success(
        self,
        market: Seq<char>,
        contracts: int,
        pnl_cents: i64,
        cost_cents: i64,
        payout_cents: i64,
        after: Self,
    ) -> bool {
        &&& after.config == self.config
        &&& after.halted == self.halted
        &&& after.tripped_at == self.tripped_at
        &&& after.trip_reason == self.trip_reason
        &&& after.consecutive_errors == 0
        &&& after.daily_pnl_cents == self.daily_pnl_cents.wrapping_add(pnl_cents)
        &&& after.current_capital_cents == self.current_capital_cents.wrapping_sub(
            cost_cents,
        ).wrapping_add(payout_cents)
        &&& after.is_held(market)
        &&& after.position_in(market) == (MarketPosition {
            contracts: (self.held_in(market) + contracts) as i64,
            ..self.position_in(market)
        })
        &&& forall|other: Seq<char>|
            other != market ==> #[trigger] after.is_held(other) == self.is_held(other)
                && after.position_in(other) == self.position_in(other)
        &&& after.held() == self.held() + contracts
        &&& after.positions.len() == self.positions.len() + (if self.is_held(market) {
            0int
        } else {
            1
        })
    }

    /// Whether the breaker has seen nothing yet.
    pub open spec fn is_new(self, config: CircuitBreakerConfig) -> bool {
        &&& self.config == config
        &&& !self.halted
        &&& self.tripped_at is None
        &&& self.trip_reason is None
        &&& self.consecutive_errors == 0
        &&& self.daily_pnl_cents == 0
        &&& self.current_capital_cents == TOTAL_CAPITAL_CENTS
        &&& self.positions.len() == 0
    }

    /// This breaker once trading goes on.
    pub open spec fn resumed(self) -> Self {
        CircuitBreaker {
            halted: false,
            tripped_at: None,
            trip_reason: None,
            consecutive_errors: 0,
            ..self
        }
    }

    /// This breaker once a new day has begun.
    pub open spec fn on_new_day(self) -> Self {
        CircuitBreaker { daily_pnl_cents: 0, ..self }
    }

    /// A breaker that has seen nothing yet.
    pub fn new(config: CircuitBreakerConfig) -> (r: Self)
        ensures
            r.wf(),
            r.is_new(config),
            r.config == config,
            !r.halted,
            r.consecutive_errors == 0,
            r.daily_pnl_cents == 0,
            r.current_capital_cents == TOTAL_CAPITAL_CENTS,
            r.positions@ == Seq::<(String, MarketPosition)>::empty(),
    {
        CircuitBreaker {
            config,
            halted: false,
            tripped_at: None,
            trip_reason: None,
            consecutive_errors: 0,
            daily_pnl_cents: 0,
            current_capital_cents: TOTAL_CAPITAL_CENTS as i64,
            positions: Vec::new(),
        }
    }

    /// Whether trading is allowed at all.
    pub fn is_trading_allowed(&self) -> (r: bool)
        ensures
            r == (!self.config.enabled || !self.halted),
    {
        if !self.config.enabled {
            return true;
        }
        !self.halted
    }

    fn find(&self, market: &str) -> (r: usize)
        ensures
            r == self.place_of(market@),
            r <= self.positions.len(),
    {
        let ghost keys = markets_of(self.positions@);
        let mut i: usize = 0;
        while i < self.positions.len()
            invariant
                keys == markets_of(self.positions@),
                i <= self.positions.len(),
                forall|j: int| 0 <= j < i ==> #[trigger] keys[j] != market@,
            decreases self.positions.len() - i,
        {
            if text::same(self.positions[i].0.as_str(), market) {
                proof {
                    seqs::lemma_is_first_at(keys, market@, i as int);
                }
                return i;
            }
            assert(keys[i as int] != market@);
            i = i + 1;
        }
        proof {
            seqs::lemma_is_first_at(keys, market@, i as int);
        }
        i
    }

    fn total_held(&self) -> (r: i64)
        requires
            i64::MIN <= self.held() <= i64::MAX,
        ensures
            r == self.held(),
    {
        let mut sum: i128 = 0;
        let mut i: usize = 0;
        assert(self.positions@.take(0) =~= Seq::empty());
        while i < self.positions.len()
            invariant
                i <= self.positions.len(),
                sum == contracts_held(self.positions@.take(i as int)),
                -0x8000_0000_0000_0000 * i <= sum <= 0x8000_0000_0000_0000 * i,
            decreases self.positions.len() - i,
        {
            assert(self.positions@.take(i + 1).drop_last() =~= self.positions@.take(i as int));
            sum = sum + self.positions[i].1.contracts as i128;
            i = i + 1;
        }
        assert(self.positions@.take(i as int) =~= self.positions@);
        sum as i64
    }

    /// Whether `contracts` more in a market are within the limits, and which
    /// limit they break where they are not.
    pub fn can_execute(&self, market_id: &str, contracts: i64) -> (r: Result<(), TripReason>)
        requires
            self.counts_fit(market_id@, contracts as int),
        ensures
            match r {
                Ok(()) => self.refusal(market_id@, contracts as int) is None,
                Err(reason) => self.refusal(market_id@, contracts as int) == Some(reason@),
            },
    {
        if !self.config.enabled {
            return Ok(());
        }
        if self.halted {
            return match &self.trip_reason {
                Some(reason) => Err(reason.clone()),
                None => Err(TripReason::ManualHalt),
            };
        }
        if self.current_capital_cents < config::reserve_cents() as i64 {
            return Err(TripReason::CapitalDepleted);
        }
        let at: usize = self.find(market_id);
        let held: i64 = if at < self.positions.len() { self.positions[at].1.contracts } else { 0 };
        if held + contracts > self.config.max_position_per_market {
            return Err(
                TripReason::MaxPositionPerMarket {
                    market: market_id.to_string(),
                    position: held + contracts,
                    limit: self.config.max_position_per_market,
                },
            );
        }
        let total: i64 = self.total_held();
        if total + contracts > self.config.max_total_position {
            return Err(
                TripReason::MaxTotalPosition {
                    position: total + contracts,
                    limit: self.config.max_total_position,
                },
            );
        }
        if -self.daily_pnl_cents > self.config.max_daily_loss_cents {
            return Err(
                TripReason::MaxDailyLoss {
                    loss_cents: -self.daily_pnl_cents,
                    limit_cents: self.config.max_daily_loss_cents,
                },
            );
        }
        Ok(())
    }

    /// Enters a successful execution: its cost and payout into the capital, its
    /// profit into the day's, its contracts into the market's position, and no
    /// errors in a row any more. The sums wrap around at 64 bits.
    pub fn record_success<Q: Quantity>(
        &mut self,
        market_id: &str,
        contracts: i64,
        _matched: i64,
        pnl_dollars: Q,
        cost_cents: i64,
        payout_cents: i64,
    )
        requires
            old(self).wf(),
            i64::MIN <= old(self).held_in(market_id@) + contracts <= i64::MAX,
        ensures
            final(self).wf(),
            old(self).with_success(
                market_id@,
                contracts as int,
                cents_toward_zero(pnl_dollars) as i64,
                cost_cents,
                payout_cents,
                *final(self),
            ),
    {
        self.consecutive_errors = 0;
        let pnl_cents: i64 = whole_cents(pnl_dollars);
        self.current_capital_cents = self.current_capital_cents.wrapping_sub(cost_cents);
        self.current_capital_cents = self.current_capital_cents.wrapping_add(payout_cents);
        self.daily_pnl_cents = self.daily_pnl_cents.wrapping_add(pnl_cents);
        let at: usize = self.find(market_id);
        let ghost before = self.positions@;
        if at == self.positions.len() {
            self.positions.push((market_id.to_string(), MarketPosition::default()));
            self.positions[at].1.contracts = contracts;
        } else {
            self.positions[at].1.contracts = self.positions[at].1.contracts + contracts;
        }
        proof {
            lemma_position_changed(before, self.positions@, market_id@, at as int, contracts as int);
        }
    }

    /// Counts an error, and halts trading where there were too many in a row.
    pub fn record_error(&mut self, now_ns: u64)
        requires
            old(self).wf(),
            old(self).consecutive_errors < i64::MAX,
        ensures
            final(self).wf(),
            old(self).with_error(now_ns, *final(self)),
    {
        let errors: i64 = self.consecutive_errors + 1;
        self.consecutive_errors = errors;
        if errors >= self.config.max_consecutive_errors as i64 {
            let limit: u32 = self.config.max_consecutive_errors;
            self.trip(
                TripReason::ConsecutiveErrors {
                    count: (errors as u64 % 0x1_0000_0000) as u32,
                    limit,
                },
                now_ns,
            );
        }
    }

    /// Halts trading, where limits apply.
    pub fn trip(&mut self, reason: TripReason, now_ns: u64)
        requires
            old(self).wf(),
        ensures
            final(self).wf(),
            old(self).tripped(reason@, now_ns, *final(self)),
    {
        if !self.config.enabled {
            return;
        }
        self.halted = true;
        self.tripped_at = Some(now_ns);
        self.trip_reason = Some(reason);
    }

    /// Lets trading go on, with no errors counted.
    pub fn reset(&mut self)
        requires
            old(self).wf(),
        ensures
            final(self).wf(),
            *final(self) == old(self).resumed(),
            *final(self) == (CircuitBreaker {
                halted: false,
                tripped_at: None,
                trip_reason: None,
                consecutive_errors: 0,
                ..*old(self)
            }),
    {
        self.halted = false;
        self.tripped_at = None;
        self.trip_reason = None;
        self.consecutive_errors = 0;
    }

    /// Starts a new day's profit and loss.
    pub fn reset_daily_pnl(&mut self)
        requires
            old(self).wf(),
        ensures
            final(self).wf(),
            *final(self) == old(self).on_new_day(),
            *final(self) == (CircuitBreaker { daily_pnl_cents: 0, ..*old(self) }),
    {
        self.daily_pnl_cents = 0;
    }

    /// The capital in cents beyond the reserve, or 0 where there is none.
    pub fn available_capital_cents(&self) -> (r: i64)
        requires
            self.current_capital_cents >= i64::MIN + reserve(),
        ensures
            r == (if self.current_capital_cents > reserve() {
                self.current_capital_cents - reserve()
            } else {
                0
            }),
    {
        let left: i64 = self.current_capital_cents - config::reserve_cents() as i64;
        if left > 0 {
            left
        } else {
            0
        }
    }

    /// Where the breaker stands.
    pub fn status(&self) -> (r: CircuitBreakerStatus)
        requires
            self.wf(),
            i64::MIN <= self.held() <= i64::MAX,
        ensures
            r.enabled == self.config.enabled,
            r.halted == self.halted,
            r.trip_reason == self.trip_reason,
            r.consecutive_errors == self.consecutive_errors as int % 0x1_0000_0000,
            r.daily_pnl_cents == self.daily_pnl_cents,
            r.current_capital_cents == self.current_capital_cents,
            r.total_position == self.held(),
            r.market_count == self.positions.len(),
    {
        CircuitBreakerStatus {
            enabled: self.config.enabled,
            halted: self.halted,
            trip_reason: match &self.trip_reason {
                Some(reason) => Some(reason.clone()),
                None => None,
            },
            consecutive_errors: (self.consecutive_errors as u64 % 0x1_0000_0000) as u32,
            daily_pnl_cents: self.daily_pnl_cents,
            current_capital_cents: self.current_capital_cents,
            total_position: self.total_held(),
            market_count: self.positions.len(),
        }
    }
}

/// Where the breaker stands.
#[derive(Debug)]
pub struct CircuitBreakerStatus {
    pub enabled: bool,
    pub halted: bool,
    pub trip_reason: Option<TripReason>,
    pub consecutive_errors: u32,
    pub daily_pnl_cents: i64,
    pub current_capital_cents: i64,
    pub total_position: i64,
    pub market_count: usize,
}

/// Replacing one value of the positions moves their sum by the difference.
proof fn lemma_held_update(
    positions: Seq<(String, MarketPosition)>,
    at: int,
    value: (String, MarketPosition),
)
    requires
        0 <= at < positions.len(),
    ensures
        contracts_held(positions.update(at, value)) == contracts_held(positions)
            - positions[at].1.contracts + value.1.contracts,
    decreases positions.len(),
{
    let after = positions.update(at, value);
    if at == positions.len() - 1 {
        assert(after.drop_last() =~= positions.drop_last());
    } else {
        assert(after.drop_last() =~= positions.drop_last().update(at, value));
        lemma_held_update(positions.drop_last(), at, value);
    }
}

/// More contracts at one place: every other market keeps its position, no
/// market gets a second one, and the sum grows by as much.
proof fn lemma_position_changed(
    before: Seq<(String, MarketPosition)>,
    after: Seq<(String, MarketPosition)>,
    market: Seq<char>,
    at: int,
    contracts: int,
)
    requires
        seqs::distinct(markets_of(before)),
        at == seqs::first_at(markets_of(before), market),
        0 <= at <= before.len(),
        at < before.len() ==> after.len() == before.len() && after[at].0 == before[at].0
            && after[at].1.contracts == before[at].1.contracts + contracts,
        at == before.len() ==> after.len() == before.len() + 1 && after[at].0@ == market
            && after[at].1.contracts == contracts,
        forall|i: int| 0 <= i < before.len() && i != at ==> #[trigger] after[i] == before[i],
    ensures
        seqs::distinct(markets_of(after)),
        seqs::first_at(markets_of(after), market) == at,
        forall|other: Seq<char>|
            other != market ==> {
                let place = #[trigger] seqs::first_at(markets_of(after), other);
                let was = seqs::first_at(markets_of(before), other);
                &&& (place < after.len()) == (was < before.len())
                &&& was < before.len() ==> place == was && after[was].1 == before[was].1
            },
        contracts_held(after) == contracts_held(before) + contracts,
{
    let old_keys = markets_of(before);
    let new_keys = markets_of(after);
    seqs::lemma_first_at(old_keys, market);
    assert forall|i: int| 0 <= i < before.len() implies #[trigger] new_keys[i] == old_keys[i] by {
        if i != at {
            assert(after[i] == before[i]);
        }
    }
    assert forall|i: int, j: int| 0 <= i < j < new_keys.len() implies #[trigger] new_keys[i]
        != #[trigger] new_keys[j] by {
        assert(new_keys[i] == old_keys[i]);
        if j < before.len() {
            assert(new_keys[j] == old_keys[j]);
        }
    }
    assert forall|j: int| 0 <= j < at implies #[trigger] new_keys[j] != market by {
        assert(new_keys[j] == old_keys[j]);
    }
    seqs::lemma_is_first_at(new_keys, market, at);
    assert forall|other: Seq<char>| other != market implies {
        let place = #[trigger] seqs::first_at(new_keys, other);
        let was = seqs::first_at(old_keys, other);
        &&& (place < after.len()) == (was < before.len())
        &&& was < before.len() ==> place == was && after[was].1 == before[was].1
    } by {
        let was = seqs::first_at(old_keys, other);
        seqs::lemma_first_at(old_keys, other);
        let place = if was < before.len() {
            was
        } else {
            after.len() as int
        };
        assert forall|j: int| 0 <= j < place implies #[trigger] new_keys[j] != other by {
            if j < before.len() {
                assert(new_keys[j] == old_keys[j]);
            }
        }
        if was < before.len() {
            assert(new_keys[was] == old_keys[was]);
            assert(after[was] == before[was]);
        }
        seqs::lemma_is_first_at(new_keys, other, place);
    }
    if at < before.len() {
        assert(after =~= before.update(at, after[at]));
        lemma_held_update(before, at, after[at]);
    } else {
        assert(after.drop_last() =~= before);
    }
}

/// What a status says.
pub open spec fn status_text(status: CircuitBreakerStatus) -> Seq<char> {
    if !status.enabled {
        "Circuit Breaker: DISABLED"@
    } else {
        let state = if !status.halted {
            "[CB] OK"@
        } else {
            match status.trip_reason {
                Some(reason) => "[CB] HALTED"@ + " ("@ + refusal_text(reason@) + ")"@,
                None => "[CB] HALTED"@,
            }
        };
        state + " | P&L: $"@ + text::dollars_text(status.daily_pnl_cents as int) + " | Capital: $"@
            + text::dollars_text(status.current_capital_cents as int) + " | Pos: "@
            + text::signed_text(status.total_position as int) + " | Errors: "@ + text::decimal_text(
            status.consecutive_errors as nat,
        )
    }
}

impl CircuitBreakerStatus {
    /// The status in one line.
    pub fn to_text(&self) -> (r: String)
        ensures
            r@ == status_text(*self),
    {
        if !self.enabled {
            return "Circuit Breaker: DISABLED".to_string();
        }
        let pnl: String = text::dollars(self.daily_pnl_cents);
        let capital: String = text::dollars(self.current_capital_cents);
        let held: String = text::signed_decimal(self.total_position);
        let errors: String = text::decimal(self.consecutive_errors as u64);
        let mut s: String = if !self.halted {
            "[CB] OK".to_string()
        } else {
            let mut halted: String = "[CB] HALTED".to_string();
            match &self.trip_reason {
                Some(reason) => {
                    let why: String = reason.to_text();
                    halted.append(" (");
                    halted.append(why.as_str());
                    halted.append(")");
                },
                None => {},
            }
            halted
        };
        s.append(" | P&L: $");
        s.append(pnl.as_str());
        s.append(" | Capital: $");
        s.append(capital.as_str());
        s.append(" | Pos: ");
        s.append(held.as_str());
        s.append(" | Errors: ");
        s.append(errors.as_str());
        s
    }
}

/// While trading is halted every trade is refused, for the reason of the halt.
pub proof fn law_halt_refuses(breaker: CircuitBreaker, market: Seq<char>, contracts: int)
    requires
        breaker.wf(),
        breaker.config.enabled,
        breaker.halted,
    ensures
        breaker.trip_reason is Some,
        breaker.refusal(market, contracts) == Some(breaker.trip_reason.unwrap()@),
{
}

/// Where limits do not apply, nothing is refused and nothing halts trading.
pub proof fn law_disabled_never_refuses(
    breaker: CircuitBreaker,
    market: Seq<char>,
    contracts: int,
    reason: Refusal,
    now_ns: u64,
    after: CircuitBreaker,
)
    requires
        !breaker.config.enabled,
        breaker.tripped(reason, now_ns, after),
    ensures
        breaker.refusal(market, contracts) is None,
        after.halted == breaker.halted,
{
}

/// Once the day's loss is beyond its limit, every trade is refused.
pub proof fn law_losses_refuse(breaker: CircuitBreaker, market: Seq<char>, contracts: int)
    requires
        breaker.config.enabled,
        -breaker.daily_pnl_cents > breaker.config.max_daily_loss_cents,
    ensures
        breaker.refusal(market, contracts) is Some,
{
}

/// What is admitted keeps every limit: the reserve is there, the contracts of the
/// market and all contracts together stay within their limits, and the day's
/// loss has not gone beyond its own.
pub proof fn law_admitted_keeps_limits(breaker: CircuitBreaker, market: Seq<char>, contracts: int)
    requires
        breaker.config.enabled,
        breaker.refusal(market, contracts) is None,
    ensures
        !breaker.halted,
        breaker.current_capital_cents >= reserve(),
        breaker.held() + contracts <= breaker.config.max_total_position,
        breaker.held_in(market) + contracts <= breaker.config.max_position_per_market,
        -breaker.daily_pnl_cents <= breaker.config.max_daily_loss_cents,
{
}

/// Positions never grow beyond their limits: what was admitted, and filled in
/// whole or in part, leaves every market and all markets together within them.
pub proof fn law_positions_stay_within_limits(
    before: CircuitBreaker,
    after: CircuitBreaker,
    market: Seq<char>,
    admitted: int,
    filled: int,
    pnl_cents: i64,
    cost_cents: i64,
    payout_cents: i64,
)
    requires
        before.config.enabled,
        before.refusal(market, admitted) is None,
        filled <= admitted,
        i64::MIN <= before.held_in(market) + filled,
        forall|m: Seq<char>| #[trigger]
            before.held_in(m) <= before.config.max_position_per_market,
        before.with_success(market, filled, pnl_cents, cost_cents, payout_cents, after),
    ensures
        forall|m: Seq<char>| #[trigger] after.held_in(m) <= after.config.max_position_per_market,
        after.held() <= after.config.max_total_position,
{
    assert forall|m: Seq<char>| #[trigger]
        after.held_in(m) <= after.config.max_position_per_market by {
        assert(before.held_in(m) <= before.config.max_position_per_market);
        assert(m != market ==> after.is_held(m) == before.is_held(m));
    }
}

/// Errors in a row, counted from none, halt trading exactly when there are as
/// many as the limit: `states[k]` is the breaker after `k` of them.
pub proof fn law_errors_in_a_row_halt(states: Seq<CircuitBreaker>, times: Seq<u64>, k: int)
    requires
        states.len() > 0,
        times.len() + 1 == states.len(),
        states.len() < i64::MAX,
        states[0].config.enabled,
        !states[0].halted,
        states[0].consecutive_errors == 0,
        states[0].config.max_consecutive_errors > 0,
        forall|i: int|
            0 <= i < times.len() ==> (#[trigger] states[i]).with_error(times[i], states[i + 1]),
        0 <= k < states.len(),
    ensures
        states[k].config == states[0].config,
        states[k].consecutive_errors == k,
        states[k].halted == (k >= states[0].config.max_consecutive_errors),
    decreases k,
{
    if k > 0 {
        law_errors_in_a_row_halt(states, times, k - 1);
        assert(states[k - 1].with_error(times[k - 1], states[k]));
    }
}

/// Nothing else is refused: while trading is not halted, a trade is admitted
/// exactly where the reserve is there and every limit holds with it, whatever
/// errors were counted.
pub proof fn law_only_broken_limits_refuse(
    breaker: CircuitBreaker,
    market: Seq<char>,
    contracts: int,
)
    requires
        breaker.config.enabled,
        !breaker.halted,
    ensures
        breaker.refusal(market, contracts) is None <==> {
            &&& breaker.current_capital_cents >= 3000
            &&& breaker.held_in(market) + contracts <= breaker.config.max_position_per_market
            &&& breaker.held() + contracts <= breaker.config.max_total_position
            &&& breaker.daily_pnl_cents >= -breaker.config.max_daily_loss_cents
        },
{
}

/// A refusal names a limit that is broken, with what breaks it, and the first of
/// those that are: reserve, market, all markets, the day's loss.
pub proof fn law_refusal_names_the_first_broken_limit(
    breaker: CircuitBreaker,
    market: Seq<char>,
    contracts: int,
)
    requires
        breaker.config.enabled,
        !breaker.halted,
    ensures
        ({
            let in_market = breaker.held_in(market) + contracts;
            let in_all = breaker.held() + contracts;
            let lost = -breaker.daily_pnl_cents;
            let limits = breaker.config;
            &&& breaker.current_capital_cents < 3000 <==> breaker.refusal(market, contracts) == Some(
                Refusal::CapitalDepleted,
            )
            &&& breaker.refusal(market, contracts) matches Some(reason) ==> match reason {
                Refusal::MaxPositionPerMarket { market: m, position, limit } => m == market
                    && position == in_market && limit == limits.max_position_per_market && position
                    > limit,
                Refusal::MaxTotalPosition { position, limit } => position == in_all && limit
                    == limits.max_total_position && position > limit && in_market
                    <= limits.max_position_per_market,
                Refusal::MaxDailyLoss { loss_cents, limit_cents } => loss_cents == lost
                    && limit_cents == limits.max_daily_loss_cents && loss_cents > limit_cents
                    && in_market <= limits.max_position_per_market && in_all
                    <= limits.max_total_position,
                Refusal::CapitalDepleted => true,
                _ => false,
            }
        }),
{
}

/// The contracts held in a market are those of its position, and none where it
/// has no position.
pub proof fn law_position_is_that_of_the_market(breaker: CircuitBreaker, i: int, market: Seq<char>)
    requires
        breaker.wf(),
        0 <= i < breaker.positions.len(),
    ensures
        breaker.held_in(breaker.positions@[i].0@) == breaker.positions@[i].1.contracts,
        (forall|j: int| 0 <= j < breaker.positions.len() ==> (#[trigger] breaker.positions@[j]).0@
            != market) ==> breaker.held_in(market) == 0,
{
    let keys = markets_of(breaker.positions@);
    let key = breaker.positions@[i].0@;
    assert(keys[i] == key);
    seqs::lemma_first_at(keys, key);
    let at = seqs::first_at(keys, key);
    if at != i {
        assert(keys[at] == key);
        assert(false);
    }
    if forall|j: int| 0 <= j < breaker.positions.len() ==> (#[trigger] breaker.positions@[j]).0@
        != market {
        assert forall|j: int| 0 <= j < keys.len() implies #[trigger] keys[j] != market by {
            assert(breaker.positions@[j].0@ != market);
        }
        seqs::lemma_is_first_at(keys, market, keys.len() as int);
    }
}

/// The contracts of all positions add up, from none.
pub proof fn law_contracts_add_up(
    positions: Seq<(String, MarketPosition)>,
    more: (String, MarketPosition),
)
    ensures
        contracts_held(positions.push(more)) == contracts_held(positions) + more.1.contracts,
        contracts_held(Seq::empty()) == 0,
{
    assert(positions.push(more).drop_last() =~= positions);
}

/// A new breaker has the whole capital and admits whatever is within its limits.
pub proof fn law_new_breaker_admits_within_limits(
    breaker: CircuitBreaker,
    config: CircuitBreakerConfig,
    market: Seq<char>,
    contracts: int,
)
    requires
        breaker.is_new(config),
        config.max_daily_loss_cents >= 0,
        contracts <= config.max_position_per_market,
        contracts <= config.max_total_position,
    ensures
        breaker.wf(),
        breaker.current_capital_cents == 10_000,
        breaker.refusal(market, contracts) is None,
{
    seqs::lemma_first_at(markets_of(breaker.positions@), market);
}

/// A success moves the capital by its payout less its cost, the day's profit by
/// its own and the market's position by its contracts, clears the errors in a
/// row, and touches nothing else.
pub proof fn law_success_is_booked(
    before: CircuitBreaker,
    after: CircuitBreaker,
    market: Seq<char>,
    other: Seq<char>,
    contracts: int,
    pnl_cents: i64,
    cost_cents: i64,
    payout_cents: i64,
)
    requires
        before.with_success(market, contracts, pnl_cents, cost_cents, payout_cents, after),
        i64::MIN <= before.held_in(market) + contracts <= i64::MAX,
        i64::MIN <= before.current_capital_cents - cost_cents <= i64::MAX,
        i64::MIN <= before.current_capital_cents - cost_cents + payout_cents <= i64::MAX,
        i64::MIN <= before.daily_pnl_cents + pnl_cents <= i64::MAX,
        other != market,
    ensures
        after.current_capital_cents == before.current_capital_cents + payout_cents - cost_cents,
        after.daily_pnl_cents == before.daily_pnl_cents + pnl_cents,
        after.held_in(market) == before.held_in(market) + contracts,
        after.held_in(other) == before.held_in(other),
        after.held() == before.held() + contracts,
        after.consecutive_errors == 0,
        after.halted == before.halted,
        after.tripped_at == before.tripped_at,
        after.trip_reason == before.trip_reason,
        after.config == before.config,
{
    assert(after.is_held(other) == before.is_held(other));
}

/// An error counts as one and halts trading exactly where it is the last that
/// the limit allows; nothing that is held, earned or owned changes.
pub proof fn law_error_counts_as_one(before: CircuitBreaker, after: CircuitBreaker, now_ns: u64)
    requires
        before.with_error(now_ns, after),
        0 <= before.consecutive_errors < 0xffff_ffff,
    ensures
        after.consecutive_errors == before.consecutive_errors + 1,
        after.config == before.config,
        after.positions == before.positions,
        after.daily_pnl_cents == before.daily_pnl_cents,
        after.current_capital_cents == before.current_capital_cents,
        ({
            let halts = before.config.enabled && before.consecutive_errors + 1
                >= before.config.max_consecutive_errors;
            &&& halts ==> after.halted && after.tripped_at == Some(now_ns) && (
            after.trip_reason matches Some(reason) && reason@ == (Refusal::ConsecutiveErrors {
                count: before.consecutive_errors + 1,
                limit: before.config.max_consecutive_errors as int,
            }))
            &&& !halts ==> after.halted == before.halted && after.tripped_at == before.tripped_at
                && after.trip_reason == before.trip_reason
        }),
{
}

/// A halt holds until trading is let on again, for the reason given; it changes
/// nothing else.
pub proof fn law_trip_halts(
    before: CircuitBreaker,
    after: CircuitBreaker,
    reason: Refusal,
    now_ns: u64,
    market: Seq<char>,
    contracts: int,
)
    requires
        before.config.enabled,
        before.tripped(reason, now_ns, after),
    ensures
        after.halted,
        after.tripped_at == Some(now_ns),
        after.refusal(market, contracts) == Some(reason),
        after.config == before.config,
        after.positions == before.positions,
        after.consecutive_errors == before.consecutive_errors,
        after.daily_pnl_cents == before.daily_pnl_cents,
        after.current_capital_cents == before.current_capital_cents,
{
}

/// Letting trading go on lifts the halt and clears the errors; positions,
/// capital and losses still count. A new day clears the day's profit or loss and
/// nothing else: what halted trading still does.
pub proof fn law_reset_and_new_day(breaker: CircuitBreaker)
    ensures
        !breaker.resumed().halted,
        breaker.resumed().trip_reason is None,
        breaker.resumed().tripped_at is None,
        breaker.resumed().consecutive_errors == 0,
        breaker.resumed().positions == breaker.positions,
        breaker.resumed().daily_pnl_cents == breaker.daily_pnl_cents,
        breaker.resumed().current_capital_cents == breaker.current_capital_cents,
        breaker.resumed().config == breaker.config,
        breaker.on_new_day().daily_pnl_cents == 0,
        breaker.on_new_day().halted == breaker.halted,
        breaker.on_new_day().tripped_at == breaker.tripped_at,
        breaker.on_new_day().trip_reason == breaker.trip_reason,
        breaker.on_new_day().consecutive_errors == breaker.consecutive_errors,
        breaker.on_new_day().positions == breaker.positions,
        breaker.on_new_day().current_capital_cents == breaker.current_capital_cents,
        breaker.on_new_day().config == breaker.config,
{
}

/// Dollars become the whole cents in them; what is left of a cent is dropped.
pub proof fn law_cents_are_whole(dollars: Decimal)
    requires
        -90_000_000_000_000_000 <= dollars.units <= 90_000_000_000_000_000,
    ensures
        ({
            let cents = cents_toward_zero(dollars) as int;
            &&& dollars.units >= 0 ==> cents * 10_000 <= dollars.units < (cents + 1) * 10_000
            &&& dollars.units <= 0 ==> (cents - 1) * 10_000 < dollars.units <= cents * 10_000
        }),
{
    let hundred = Decimal::from_int_spec(100);
    assert(hundred.units == 100_000_000);
    assert(dollars.units * hundred.units == dollars.units * 100_000_000);
    assert(dollars.times_spec(hundred).units == dollars.units * 100);
}

/// A setting that is an integer within range is that integer; one that is
/// missing, or anything else, is its default. Where no sign is kept, a minus is
/// not read.
pub proof fn law_settings_are_read_or_default(s: String, n: int, low: int, high: int, default: int)
    ensures
        integer_setting(None, low, high, default) == default,
        text::integer_of(s@) is None ==> integer_setting(Some(s), low, high, default) == default,
        text::integer_of(s@) == Some(n) ==> integer_setting(Some(s), low, high, default) == (
        if low <= n <= high {
            n
        } else {
            default
        }),
        unsigned_setting(None, high, default) == default,
        text::integer_of(s@) is None ==> unsigned_setting(Some(s), high, default) == default,
        text::integer_of(s@) == Some(n) ==> unsigned_setting(Some(s), high, default) == (if s@[0]
            != '-' && 0 <= n <= high {
            n
        } else {
            default
        }),
{
}

/// A loss limit in dollars is read as cents; one that is missing, or no number,
/// is its default.
pub proof fn law_loss_limit_is_in_cents(s: String, dollars: Decimal, default: int)
    requires
        0 <= dollars.units <= 90_000_000_000_000_000,
    ensures
        loss_setting::<Decimal>(None, default) == default,
        Decimal::parse_spec(s@) is None ==> loss_setting::<Decimal>(Some(s), default) == default,
        Decimal::parse_spec(s@) == Some(dollars) ==> loss_setting::<Decimal>(Some(s), default)
            * 10_000 <= dollars.units < (loss_setting::<Decimal>(Some(s), default) + 1) * 10_000,
{
    law_cents_are_whole(dollars);
}

/// A switch is off only where it says "0" or "false", in any case of letters.
pub proof fn law_switch_is_on_unless_set_off(s: String)
    ensures
        switch_setting(None),
        s@ == "0"@ ==> !switch_setting(Some(s)),
        text::lowercase(s@) == "false"@ ==> !switch_setting(Some(s)),
        s@ != "0"@ && text::lowercase(s@) != "false"@ ==> switch_setting(Some(s)),
{
}

/// With conservative limits a new breaker admits up to 50 contracts of a market,
/// and no more, whichever market it is.
pub proof fn law_conservative_limits_admit_fifty(
    breaker: CircuitBreaker,
    market: Seq<char>,
    contracts: int,
)
    requires
        breaker.is_new(conservative_limits()),
    ensures
        breaker.refusal(market, contracts) is None <==> contracts <= 50,
{
    seqs::lemma_first_at(markets_of(breaker.positions@), market);
}

/// With conservative limits trading halts with the third error in a row.
pub proof fn law_conservative_limits_halt_at_three(
    before: CircuitBreaker,
    after: CircuitBreaker,
    now_ns: u64,
)
    requires
        before.config == conservative_limits(),
        !before.halted,
        0 <= before.consecutive_errors < 0xffff_ffff,
        before.with_error(now_ns, after),
    ensures
        after.halted <==> after.consecutive_errors >= 3,
{
}

/// A status shows the day's profit or loss, the capital, the positions and the
/// errors, in this order, behind the state; a disabled breaker shows none.
pub proof fn law_status_shows_the_figures(status: CircuitBreakerStatus)
    ensures
        !status.enabled ==> status_text(status) == "Circuit Breaker: DISABLED"@,
        status.enabled && !status.halted ==> status_text(status) == "[CB] OK"@ + " | P&L: $"@
            + text::dollars_text(status.daily_pnl_cents as int) + " | Capital: $"@
            + text::dollars_text(status.current_capital_cents as int) + " | Pos: "@
            + text::signed_text(status.total_position as int) + " | Errors: "@ + text::decimal_text(
            status.consecutive_errors as nat,
        ),
        status.enabled && status.halted && status.trip_reason is Some ==> text::has_part(
            status_text(status),
            refusal_text(status.trip_reason.unwrap()@),
        ),
{
    if status.enabled && status.halted && status.trip_reason is Some {
        let why = refusal_text(status.trip_reason.unwrap()@);
        let before = "[CB] HALTED"@ + " ("@;
        let behind = ")"@ + " | P&L: $"@ + text::dollars_text(status.daily_pnl_cents as int)
            + " | Capital: $"@ + text::dollars_text(status.current_capital_cents as int)
            + " | Pos: "@ + text::signed_text(status.total_position as int) + " | Errors: "@
            + text::decimal_text(status.consecutive_errors as nat);
        assert(status_text(status) =~= before + why + behind);
        text::law_part_has_something_around_it(status_text(status), before, why, behind);
    }
}

} // verus!
