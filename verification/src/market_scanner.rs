//! Market discovery: which listed markets are tracked, and what is known of them.

use vstd::prelude::*;
use vstd::string::*;

use crate::config;
use crate::config::{MarketCategory, MAX_DAYS_TO_EXPIRY, MAX_OUTCOMES, MIN_OUTCOMES, MIN_VOLUME_USD,
    NEW_MARKET_HOURS};
use crate::gamma;
use crate::gamma::GammaMarket;
use crate::quantity;
use crate::quantity::{Decimal, Quantity};
use crate::seqs;
use crate::text;
use crate::timestamp;
use crate::timestamp::Timestamp;

verus! {

// ---------------------------------------------------------------------------
// Tracked markets
// ---------------------------------------------------------------------------

/// An outcome of a tracked market.
#[derive(Debug)]
pub struct Outcome<Q> {
    pub name: String,
    pub token_id: String,
    /// Best ask, in dollars.
    pub ask_price: Q,
    /// Contracts at the best ask.
    pub ask_size: Q,
    /// Best bid, in dollars.
    pub bid_price: Q,
}

/// A tracked market.
#[derive(Debug)]
pub struct TrackedMarket<Q> {
    pub condition_id: String,
    pub question: String,
    pub slug: String,
    pub outcomes: Vec<Outcome<Q>>,
    pub volume_usd: Q,
    pub liquidity_usd: Q,
    pub created_at: Option<Timestamp>,
    pub end_date: Option<Timestamp>,
    pub category: MarketCategory,
    pub active: bool,
    pub closed: bool,
    /// Whether the market is less than a day old.
    pub is_new: bool,
    pub last_updated: Timestamp,
    pub tags: Vec<String>,
}

/// An outcome with its texts as sequences.
#[verifier::ext_equal]
pub struct OutcomeView<Q> {
    pub name: Seq<char>,
    pub token_id: Seq<char>,
    pub ask_price: Q,
    pub ask_size: Q,
    pub bid_price: Q,
}

/// A tracked market with its texts and lists as sequences.
#[verifier::ext_equal]
pub struct MarketView<Q> {
    pub condition_id: Seq<char>,
    pub question: Seq<char>,
    pub slug: Seq<char>,
    pub outcomes: Seq<OutcomeView<Q>>,
    pub volume_usd: Q,
    pub liquidity_usd: Q,
    pub created_at: Option<Timestamp>,
    pub end_date: Option<Timestamp>,
    pub category: MarketCategory,
    pub active: bool,
    pub closed: bool,
    pub is_new: bool,
    pub last_updated: Timestamp,
    pub tags: Seq<Seq<char>>,
}

impl<Q> View for Outcome<Q> {
    type V = OutcomeView<Q>;

    open spec fn view(&self) -> OutcomeView<Q> {
        OutcomeView {
            name: self.name@,
            token_id: self.token_id@,
            ask_price: self.ask_price,
            ask_size: self.ask_size,
            bid_price: self.bid_price,
        }
    }
}

/// The views of some outcomes.
pub open spec fn outcome_views<Q>(outcomes: Seq<Outcome<Q>>) -> Seq<OutcomeView<Q>> {
    outcomes.map_values(|o: Outcome<Q>| o@)
}

impl<Q> View for TrackedMarket<Q> {
    type V = MarketView<Q>;

    open spec fn view(&self) -> MarketView<Q> {
        MarketView {
            condition_id: self.condition_id@,
            question: self.question@,
            slug: self.slug@,
            outcomes: outcome_views(self.outcomes@),
            volume_usd: self.volume_usd,
            liquidity_usd: self.liquidity_usd,
            created_at: self.created_at,
            end_date: self.end_date,
            category: self.category,
            active: self.active,
            closed: self.closed,
            is_new: self.is_new,
            last_updated: self.last_updated,
            tags: text::views(self.tags@),
        }
    }
}

/// The views of some markets.
pub open spec fn market_views<Q>(markets: Seq<TrackedMarket<Q>>) -> Seq<MarketView<Q>> {
    markets.map_values(|m: TrackedMarket<Q>| m@)
}

/// The sum of some numbers, added up in order from zero.
pub open spec fn sum_up<Q: Quantity>(numbers: Seq<Q>) -> Q
    decreases numbers.len(),
{
    if numbers.len() == 0 {
        Q::zero_spec()
    } else {
        sum_up(numbers.drop_last()).plus_spec(numbers.last())
    }
}

/// The smallest of some numbers, taken in order from the largest of all.
pub open spec fn smallest<Q: Quantity>(numbers: Seq<Q>) -> Q
    decreases numbers.len(),
{
    if numbers.len() == 0 {
        Q::highest_spec()
    } else {
        smallest(numbers.drop_last()).lesser_spec(numbers.last())
    }
}

/// The ask prices of a market.
pub open spec fn asks<Q>(market: MarketView<Q>) -> Seq<Q> {
    market.outcomes.map_values(|o: OutcomeView<Q>| o.ask_price)
}

/// The ask sizes of a market.
pub open spec fn ask_sizes<Q>(market: MarketView<Q>) -> Seq<Q> {
    market.outcomes.map_values(|o: OutcomeView<Q>| o.ask_size)
}

/// What is left of a dollar after buying every outcome, in whole cents; 0 where
/// the outcomes cost a dollar or more.
pub open spec fn profit_cents<Q: Quantity>(market: MarketView<Q>) -> int {
    let sum = sum_up(asks(market));
    let one = Q::from_int_spec(1);
    if sum.below_spec(one) {
        one.minus_spec(sum).times_spec(Q::from_int_spec(100)).rounded_spec(
            i16::MIN as i128,
            i16::MAX as i128,
        ) as int
    } else {
        0
    }
}

impl<Q: Quantity> TrackedMarket<Q> {
    /// Whether the market has two outcomes.
    pub fn is_binary(&self) -> (r: bool)
        ensures
            r == (self@.outcomes.len() == 2),
    {
        self.outcomes.len() == 2
    }

    /// The sum of the ask prices.
    pub fn sum_of_asks(&self) -> (r: Q)
        ensures
            r == sum_up(asks(self@)),
    {
        let ghost prices = asks(self@);
        let mut sum: Q = Q::zero();
        let mut i: usize = 0;
        assert(prices.take(0) =~= Seq::empty());
        while i < self.outcomes.len()
            invariant
                prices == asks(self@),
                i <= self.outcomes.len(),
                sum == sum_up(prices.take(i as int)),
            decreases self.outcomes.len() - i,
        {
            assert(prices.take(i + 1).drop_last() =~= prices.take(i as int));
            sum = sum.plus(self.outcomes[i].ask_price);
            i = i + 1;
        }
        assert(prices.take(i as int) =~= prices);
        sum
    }

    /// The smallest ask size; the largest number of all where there is no outcome.
    pub fn min_liquidity(&self) -> (r: Q)
        ensures
            r == smallest(ask_sizes(self@)),
    {
        let ghost sizes = ask_sizes(self@);
        let mut low: Q = Q::highest();
        let mut i: usize = 0;
        assert(sizes.take(0) =~= Seq::empty());
        while i < self.outcomes.len()
            invariant
                sizes == ask_sizes(self@),
                i <= self.outcomes.len(),
                low == smallest(sizes.take(i as int)),
            decreases self.outcomes.len() - i,
        {
            assert(sizes.take(i + 1).drop_last() =~= sizes.take(i as int));
            low = low.lesser(self.outcomes[i].ask_size);
            i = i + 1;
        }
        assert(sizes.take(i as int) =~= sizes);
        low
    }

    /// The profit in cents that buying every outcome brings, if any.
    pub fn potential_profit_cents(&self) -> (r: i16)
        ensures
            r == profit_cents(self@),
    {
        let sum: Q = self.sum_of_asks();
        let one: Q = Q::from_int(1);
        if sum.below(one) {
            one.minus(sum).times(Q::from_int(100)).rounded(i16::MIN as i128, i16::MAX as i128) as i16
        } else {
            0
        }
    }

    /// Whether every outcome offers at least `min_contracts` at the ask.
    pub fn has_sufficient_liquidity(&self, min_contracts: Q) -> (r: bool)
        ensures
            r == (forall|i: int|
                0 <= i < self@.outcomes.len() ==> min_contracts.at_most_spec(
                    (#[trigger] self@.outcomes[i]).ask_size,
                )),
    {
        let mut i: usize = 0;
        while i < self.outcomes.len()
            invariant
                i <= self.outcomes.len(),
                forall|j: int|
                    0 <= j < i ==> min_contracts.at_most_spec(
                        (#[trigger] self@.outcomes[j]).ask_size,
                    ),
            decreases self.outcomes.len() - i,
        {
            if !min_contracts.at_most(self.outcomes[i].ask_size) {
                assert(self@.outcomes[i as int].ask_size == self.outcomes@[i as int].ask_size);
                return false;
            }
            i = i + 1;
        }
        true
    }
}

// ---------------------------------------------------------------------------
// From a listed market to a tracked one
// ---------------------------------------------------------------------------

/// Why a listed market is not tracked.
#[derive(Clone, Copy, Debug, PartialEq, Eq, Structural)]
pub enum SkipReason {
    NoConditionId,
    NoQuestion,
    KeywordFilter,
    NoOutcomes,
    OutcomesParseFail,
    EmptyOutcomes,
    TooFewOutcomes,
    TooManyOutcomes,
    TokenParseFail,
    TokenOutcomeMismatch,
    LowVolume,
    Expired,
    TooFarExpiry,
    CategoryDisabled,
}

/// The short name of a reason.
pub open spec fn skip_name(reason: SkipReason) -> Seq<char> {
    match reason {
        SkipReason::NoConditionId => "no_condition_id"@,
        SkipReason::NoQuestion => "no_question"@,
        SkipReason::KeywordFilter => "keyword_filter"@,
        SkipReason::NoOutcomes => "no_outcomes"@,
        SkipReason::OutcomesParseFail => "outcomes_parse_fail"@,
        SkipReason::EmptyOutcomes => "empty_outcomes"@,
        SkipReason::TooFewOutcomes => "too_few_outcomes"@,
        SkipReason::TooManyOutcomes => "too_many_outcomes"@,
        SkipReason::TokenParseFail => "token_parse_fail"@,
        SkipReason::TokenOutcomeMismatch => "token_outcome_mismatch"@,
        SkipReason::LowVolume => "low_volume"@,
        SkipReason::Expired => "expired"@,
        SkipReason::TooFarExpiry => "too_far_expiry"@,
        SkipReason::CategoryDisabled => "category_disabled"@,
    }
}

impl SkipReason {
    /// The short name of the reason.
    pub fn name(self) -> (r: &'static str)
        ensures
            r@ == skip_name(self),
    {
        match self {
            SkipReason::NoConditionId => "no_condition_id",
            SkipReason::NoQuestion => "no_question",
            SkipReason::KeywordFilter => "keyword_filter",
            SkipReason::NoOutcomes => "no_outcomes",
            SkipReason::OutcomesParseFail => "outcomes_parse_fail",
            SkipReason::EmptyOutcomes => "empty_outcomes",
            SkipReason::TooFewOutcomes => "too_few_outcomes",
            SkipReason::TooManyOutcomes => "too_many_outcomes",
            SkipReason::TokenParseFail => "token_parse_fail",
            SkipReason::TokenOutcomeMismatch => "token_outcome_mismatch",
            SkipReason::LowVolume => "low_volume",
            SkipReason::Expired => "expired",
            SkipReason::TooFarExpiry => "too_far_expiry",
            SkipReason::CategoryDisabled => "category_disabled",
        }
    }
}

/// What the texts of a listed market say, once read.
#[derive(Debug)]
pub struct MarketReading {
    /// Whether the question holds a word that rules the market out.
    pub question_skipped: bool,
    pub outcome_names: Option<Vec<String>>,
    pub token_ids: Option<Vec<String>>,
    pub prices: Option<Vec<String>>,
    pub created_at: Option<Timestamp>,
    pub end_date: Option<Timestamp>,
    pub category: MarketCategory,
}

/// What the texts of a listed market say, as mathematical values.
pub struct ReadingView {
    pub question_skipped: bool,
    pub outcome_names: Option<Seq<Seq<char>>>,
    pub token_ids: Option<Seq<Seq<char>>>,
    pub prices: Option<Seq<Seq<char>>>,
    pub created_at: Option<Timestamp>,
    pub end_date: Option<Timestamp>,
    pub category: MarketCategory,
}

/// The texts of a list, where there is one.
pub open spec fn list_view(list: Option<Vec<String>>) -> Option<Seq<Seq<char>>> {
    match list {
        Some(v) => Some(text::views(v@)),
        None => None,
    }
}

impl View for MarketReading {
    type V = ReadingView;

    open spec fn view(&self) -> ReadingView {
        ReadingView {
            question_skipped: self.question_skipped,
            outcome_names: list_view(self.outcome_names),
            token_ids: list_view(self.token_ids),
            prices: list_view(self.prices),
            created_at: self.created_at,
            end_date: self.end_date,
            category: self.category,
        }
    }
}

/// The text of a field, or another where the field is missing.
pub open spec fn text_or(field: Option<String>, default: Seq<char>) -> Seq<char> {
    match field {
        Some(s) => s@,
        None => default,
    }
}

/// The tags of a listed market.
pub open spec fn tags_of(market: GammaMarket) -> Seq<String> {
    match market.tags {
        Some(tags) => tags@,
        None => Seq::empty(),
    }
}

/// The instant of a field, where it holds one.
pub open spec fn instant_field(field: Option<String>) -> Option<Timestamp> {
    match field {
        Some(s) => timestamp::instant_of(s@),
        None => None,
    }
}

/// What the texts of a listed market say.
pub open spec fn reading_of(market: GammaMarket) -> ReadingView {
    ReadingView {
        question_skipped: market.question matches Some(q) && config::is_skipped(q@),
        outcome_names: match market.outcomes {
            Some(s) => gamma::json_strings(s@),
            None => None,
        },
        token_ids: gamma::json_strings(text_or(market.clob_token_ids, "[]"@)),
        prices: gamma::json_strings(text_or(market.outcome_prices, "[]"@)),
        created_at: instant_field(market.start_date),
        end_date: instant_field(market.end_date),
        category: config::category_of(config::lowercase_tags(tags_of(market))),
    }
}

/// The number of a field; zero where it is missing or not a number.
pub open spec fn number_field<Q: Quantity>(field: Option<String>) -> Q {
    match field {
        Some(s) => match Q::parse_spec(s@) {
            Some(n) => n,
            None => Q::zero_spec(),
        },
        None => Q::zero_spec(),
    }
}

/// Why a listed market is not tracked at `now`, if it is not: the first of the
/// reasons, in the order in which they are looked at.
pub open spec fn skip_reason<Q: Quantity>(
    market: GammaMarket,
    reading: ReadingView,
    now: Timestamp,
) -> Option<SkipReason> {
    if market.condition_id is None {
        Some(SkipReason::NoConditionId)
    } else if market.question is None {
        Some(SkipReason::NoQuestion)
    } else if reading.question_skipped {
        Some(SkipReason::KeywordFilter)
    } else if market.outcomes is None {
        Some(SkipReason::NoOutcomes)
    } else if reading.outcome_names is None {
        Some(SkipReason::OutcomesParseFail)
    } else if reading.outcome_names.unwrap().len() == 0 {
        Some(SkipReason::EmptyOutcomes)
    } else if reading.outcome_names.unwrap().len() < MIN_OUTCOMES {
        Some(SkipReason::TooFewOutcomes)
    } else if reading.outcome_names.unwrap().len() > MAX_OUTCOMES {
        Some(SkipReason::TooManyOutcomes)
    } else if reading.token_ids is None {
        Some(SkipReason::TokenParseFail)
    } else if reading.token_ids.unwrap().len() != reading.outcome_names.unwrap().len() {
        Some(SkipReason::TokenOutcomeMismatch)
    } else if number_field::<Q>(market.volume).at_most_spec(
        Q::from_int_spec(MIN_VOLUME_USD as i128),
    ) {
        Some(SkipReason::LowVolume)
    } else if reading.end_date matches Some(end) && timestamp::days_between(end, now) < 0 {
        Some(SkipReason::Expired)
    } else if reading.end_date matches Some(end) && timestamp::days_between(end, now)
        >= MAX_DAYS_TO_EXPIRY {
        Some(SkipReason::TooFarExpiry)
    } else if !config::category_enabled(reading.category) {
        Some(SkipReason::CategoryDisabled)
    } else {
        None
    }
}

/// Whether something that began at `created` is new at `now`.
pub open spec fn is_new_at(created: Option<Timestamp>, now: Timestamp) -> bool {
    created matches Some(c) && 0 <= timestamp::hours_between(now, c) < NEW_MARKET_HOURS
}

/// The price at a place of a list; zero where there is none or it is not a number.
pub open spec fn price_at<Q: Quantity>(prices: Option<Seq<Seq<char>>>, i: int) -> Q {
    match prices {
        Some(list) => if i < list.len() {
            match Q::parse_spec(list[i]) {
                Some(n) => n,
                None => Q::zero_spec(),
            }
        } else {
            Q::zero_spec()
        },
        None => Q::zero_spec(),
    }
}

/// The outcomes of a market that is taken up: names, tokens and prices by place.
pub open spec fn listed_outcomes<Q: Quantity>(reading: ReadingView) -> Seq<OutcomeView<Q>> {
    Seq::new(
        reading.outcome_names.unwrap().len(),
        |i: int|
            OutcomeView {
                name: reading.outcome_names.unwrap()[i],
                token_id: reading.token_ids.unwrap()[i],
                ask_price: price_at(reading.prices, i),
                ask_size: Q::zero_spec(),
                bid_price: Q::zero_spec(),
            },
    )
}

/// The tracked market that a listed one becomes at `now`.
pub open spec fn tracked_from<Q: Quantity>(
    market: GammaMarket,
    reading: ReadingView,
    now: Timestamp,
) -> MarketView<Q> {
    MarketView {
        condition_id: market.condition_id.unwrap()@,
        question: market.question.unwrap()@,
        slug: text_or(market.slug, Seq::empty()),
        outcomes: listed_outcomes(reading),
        volume_usd: number_field(market.volume),
        liquidity_usd: number_field(market.liquidity),
        created_at: reading.created_at,
        end_date: reading.end_date,
        category: reading.category,
        active: market.active matches Some(b) && b,
        closed: market.closed matches Some(b) ==> b,
        is_new: is_new_at(reading.created_at, now),
        last_updated: now,
        tags: text::views(tags_of(market)),
    }
}

fn read_number<Q: Quantity>(field: &Option<String>) -> (r: Q)
    ensures
        r == number_field::<Q>(*field),
{
    match field {
        Some(s) => match Q::parse(s.as_str()) {
            Some(n) => n,
            None => Q::zero(),
        },
        None => Q::zero(),
    }
}

fn read_instant(field: &Option<String>) -> (r: Option<Timestamp>)
    ensures
        r == instant_field(*field),
{
    match field {
        Some(s) => timestamp::parse_rfc3339(s.as_str()),
        None => None,
    }
}

fn copy_strings(strings: &Vec<String>) -> (r: Vec<String>)
    ensures
        r@ == strings@,
{
    let mut copy: Vec<String> = Vec::new();
    let mut i: usize = 0;
    while i < strings.len()
        invariant
            i <= strings.len(),
            copy@ == strings@.take(i as int),
        decreases strings.len() - i,
    {
        copy.push(strings[i].clone());
        i = i + 1;
    }
    copy
}

fn copy_text(field: &Option<String>) -> (r: String)
    ensures
        r@ == text_or(*field, Seq::empty()),
{
    match field {
        Some(s) => s.clone(),
        None => String::new(),
    }
}

/// Reads the texts of a listed market.
pub fn read_market(market: &GammaMarket) -> (r: MarketReading)
    ensures
        r@ == reading_of(*market),
{
    let question_skipped: bool = match &market.question {
        Some(q) => config::should_skip_market(q.as_str()),
        None => false,
    };
    let outcome_names: Option<Vec<String>> = match &market.outcomes {
        Some(s) => gamma::parse_json_strings(s.as_str()),
        None => None,
    };
    let token_ids: Option<Vec<String>> = match &market.clob_token_ids {
        Some(s) => gamma::parse_json_strings(s.as_str()),
        None => gamma::parse_json_strings("[]"),
    };
    let prices: Option<Vec<String>> = match &market.outcome_prices {
        Some(s) => gamma::parse_json_strings(s.as_str()),
        None => gamma::parse_json_strings("[]"),
    };
    let category: MarketCategory = match &market.tags {
        Some(tags) => MarketCategory::from_tags(tags.as_slice()),
        None => {
            let none: Vec<String> = Vec::new();
            assert(none@ =~= tags_of(*market));
            MarketCategory::from_tags(none.as_slice())
        },
    };
    MarketReading {
        question_skipped,
        outcome_names,
        token_ids,
        prices,
        created_at: read_instant(&market.start_date),
        end_date: read_instant(&market.end_date),
        category,
    }
}

fn build_outcomes<Q: Quantity>(
    names: &Vec<String>,
    token_ids: &Vec<String>,
    prices: &Option<Vec<String>>,
) -> (r: Vec<Outcome<Q>>)
    requires
        names.len() == token_ids.len(),
    ensures
        r.len() == names.len(),
        forall|i: int|
            0 <= i < names.len() ==> (#[trigger] r@[i])@ == (OutcomeView {
                name: names@[i]@,
                token_id: token_ids@[i]@,
                ask_price: price_at::<Q>(list_view(*prices), i),
                ask_size: Q::zero_spec(),
                bid_price: Q::zero_spec(),
            }),
{
    let mut outcomes: Vec<Outcome<Q>> = Vec::new();
    let mut i: usize = 0;
    while i < names.len()
        invariant
            names.len() == token_ids.len(),
            i <= names.len(),
            outcomes.len() == i,
            forall|j: int|
                0 <= j < i ==> (#[trigger] outcomes@[j])@ == (OutcomeView {
                    name: names@[j]@,
                    token_id: token_ids@[j]@,
                    ask_price: price_at::<Q>(list_view(*prices), j),
                    ask_size: Q::zero_spec(),
                    bid_price: Q::zero_spec(),
                }),
        decreases names.len() - i,
    {
        let ask_price: Q = match prices {
            Some(list) => {
                if i < list.len() {
                    match Q::parse(list[i].as_str()) {
                        Some(n) => n,
                        None => Q::zero(),
                    }
                } else {
                    Q::zero()
                }
            },
            None => Q::zero(),
        };
        outcomes.push(
            Outcome {
                name: names[i].clone(),
                token_id: token_ids[i].clone(),
                ask_price,
                ask_size: Q::zero(),
                bid_price: Q::zero(),
            },
        );
        i = i + 1;
    }
    outcomes
}

/// Decides whether a listed market is tracked, and makes it a tracked one.
pub fn assess_market<Q: Quantity>(
    market: &GammaMarket,
    reading: &MarketReading,
    now: Timestamp,
) -> (r: Result<TrackedMarket<Q>, SkipReason>)
    ensures
        match r {
            Ok(taken) => skip_reason::<Q>(*market, reading@, now) is None && taken@
                == tracked_from::<Q>(*market, reading@, now),
            Err(reason) => skip_reason::<Q>(*market, reading@, now) == Some(reason),
        },
{
    let condition_id: String = match &market.condition_id {
        Some(s) => s.clone(),
        None => {
            return Err(SkipReason::NoConditionId);
        },
    };
    let question: String = match &market.question {
        Some(s) => s.clone(),
        None => {
            return Err(SkipReason::NoQuestion);
        },
    };
    if reading.question_skipped {
        return Err(SkipReason::KeywordFilter);
    }
    if market.outcomes.is_none() {
        return Err(SkipReason::NoOutcomes);
    }
    let names: &Vec<String> = match &reading.outcome_names {
        Some(names) => names,
        None => {
            return Err(SkipReason::OutcomesParseFail);
        },
    };
    assert(text::views(names@).len() == names.len());
    if names.len() == 0 {
        return Err(SkipReason::EmptyOutcomes);
    }
    if names.len() < MIN_OUTCOMES {
        return Err(SkipReason::TooFewOutcomes);
    }
    if names.len() > MAX_OUTCOMES {
        return Err(SkipReason::TooManyOutcomes);
    }
    let token_ids: &Vec<String> = match &reading.token_ids {
        Some(ids) => ids,
        None => {
            return Err(SkipReason::TokenParseFail);
        },
    };
    assert(text::views(token_ids@).len() == token_ids.len());
    if token_ids.len() != names.len() {
        return Err(SkipReason::TokenOutcomeMismatch);
    }
    let outcomes: Vec<Outcome<Q>> = build_outcomes(names, token_ids, &reading.prices);
    assert(outcome_views(outcomes@) =~= listed_outcomes::<Q>(reading@));
    let volume_usd: Q = read_number(&market.volume);
    if volume_usd.at_most(Q::from_int(MIN_VOLUME_USD as i128)) {
        return Err(SkipReason::LowVolume);
    }
    let liquidity_usd: Q = read_number(&market.liquidity);
    match reading.end_date {
        Some(end) => {
            let days: i64 = timestamp::num_days(end, now);
            if days < 0 {
                return Err(SkipReason::Expired);
            }
            if days >= MAX_DAYS_TO_EXPIRY as i64 {
                return Err(SkipReason::TooFarExpiry);
            }
        },
        None => {},
    }
    let is_new: bool = match reading.created_at {
        Some(created) => {
            let hours: i64 = timestamp::num_hours(now, created);
            hours >= 0 && hours < NEW_MARKET_HOURS as i64
        },
        None => false,
    };
    let tags: Vec<String> = match &market.tags {
        Some(tags) => copy_strings(tags),
        None => Vec::new(),
    };
    assert(tags@ =~= tags_of(*market));
    if !reading.category.is_enabled() {
        return Err(SkipReason::CategoryDisabled);
    }
    Ok(
        TrackedMarket {
            condition_id,
            question,
            slug: copy_text(&market.slug),
            outcomes,
            volume_usd,
            liquidity_usd,
            created_at: reading.created_at,
            end_date: reading.end_date,
            category: reading.category,
            active: match market.active {
                Some(b) => b,
                None => false,
            },
            closed: match market.closed {
                Some(b) => b,
                None => true,
            },
            is_new,
            last_updated: now,
            tags,
        },
    )
}

/// A market that lacks a field without which nothing can be said of it.
#[derive(Clone, Copy, Debug, PartialEq, Eq, Structural)]
pub enum MissingField {
    ConditionId,
    Question,
    Outcomes,
}

/// The field whose lack is the reason, if it is a lack.
pub open spec fn missing_field(reason: SkipReason) -> Option<MissingField> {
    match reason {
        SkipReason::NoConditionId => Some(MissingField::ConditionId),
        SkipReason::NoQuestion => Some(MissingField::Question),
        SkipReason::NoOutcomes => Some(MissingField::Outcomes),
        _ => None,
    }
}

/// What a market becomes where the reason does not matter: an error where a
/// field is missing, nothing where the market is passed over.
pub fn without_reason<Q: Quantity>(assessed: Result<TrackedMarket<Q>, SkipReason>) -> (r: Result<
    Option<TrackedMarket<Q>>,
    MissingField,
>)
    ensures
        match assessed {
            Ok(taken) => r == Ok::<_, MissingField>(Some(taken)),
            Err(reason) => match missing_field(reason) {
                Some(field) => r == Err::<Option<TrackedMarket<Q>>, _>(field),
                None => r == Ok::<_, MissingField>(None::<TrackedMarket<Q>>),
            },
        },
{
    match assessed {
        Ok(taken) => Ok(Some(taken)),
        Err(SkipReason::NoConditionId) => Err(MissingField::ConditionId),
        Err(SkipReason::NoQuestion) => Err(MissingField::Question),
        Err(SkipReason::NoOutcomes) => Err(MissingField::Outcomes),
        Err(_) => Ok(None),
    }
}

// ---------------------------------------------------------------------------
// All tracked markets
// ---------------------------------------------------------------------------

/// The conditions of some markets.
pub open spec fn condition_ids<Q>(markets: Seq<MarketView<Q>>) -> Seq<Seq<char>> {
    markets.map_values(|m: MarketView<Q>| m.condition_id)
}

/// The markets after one more was taken up: in the place of the one with its
/// condition, or behind all others.
pub open spec fn taken_up<Q>(markets: Seq<MarketView<Q>>, market: MarketView<Q>) -> Seq<
    MarketView<Q>,
> {
    seqs::put(markets, condition_ids(markets), market.condition_id, market)
}

/// Why a listed market is not tracked at `now`, if it is not.
pub open spec fn skipped_at<Q: Quantity>(market: GammaMarket, now: Timestamp) -> Option<SkipReason> {
    skip_reason::<Q>(market, reading_of(market), now)
}

/// The markets after the first `n` of a batch were gone through.
pub open spec fn after_scan<Q: Quantity>(
    markets: Seq<MarketView<Q>>,
    batch: Seq<GammaMarket>,
    now: Timestamp,
    n: int,
) -> Seq<MarketView<Q>>
    decreases n,
{
    if n <= 0 {
        markets
    } else {
        let before = after_scan(markets, batch, now, n - 1);
        let market = batch[n - 1];
        if skipped_at::<Q>(market, now) is None {
            taken_up(before, tracked_from(market, reading_of(market), now))
        } else {
            before
        }
    }
}

/// The reasons for the markets passed over among the first `n` of a batch.
pub open spec fn scan_skips<Q: Quantity>(
    batch: Seq<GammaMarket>,
    now: Timestamp,
    n: int,
) -> Seq<SkipReason>
    decreases n,
{
    if n <= 0 {
        Seq::empty()
    } else {
        match skipped_at::<Q>(batch[n - 1], now) {
            Some(reason) => scan_skips::<Q>(batch, now, n - 1).push(reason),
            None => scan_skips::<Q>(batch, now, n - 1),
        }
    }
}

/// The tokens of some outcomes.
pub open spec fn tokens_of<Q>(outcomes: Seq<OutcomeView<Q>>) -> Seq<Seq<char>> {
    outcomes.map_values(|o: OutcomeView<Q>| o.token_id)
}

/// The tokens of all outcomes of some markets, in order.
pub open spec fn all_tokens<Q>(markets: Seq<MarketView<Q>>) -> Seq<Seq<char>>
    decreases markets.len(),
{
    if markets.len() == 0 {
        Seq::empty()
    } else {
        all_tokens(markets.drop_last()) + tokens_of(markets.last().outcomes)
    }
}

/// Whether an outcome of the market has the token.
pub open spec fn has_token<Q>(market: MarketView<Q>, token: Seq<char>) -> bool {
    seqs::first_at(tokens_of(market.outcomes), token) < market.outcomes.len()
}

/// The first market with an outcome that has the token, or their number.
pub open spec fn market_with_token<Q>(markets: Seq<MarketView<Q>>, token: Seq<char>) -> int
    decreases markets.len(),
{
    if markets.len() == 0 {
        0
    } else if has_token(markets[0], token) {
        0
    } else {
        1 + market_with_token(markets.skip(1), token)
    }
}

proof fn lemma_market_with_token<Q>(markets: Seq<MarketView<Q>>, token: Seq<char>, at: int)
    requires
        0 <= at <= markets.len(),
        forall|j: int| 0 <= j < at ==> !has_token(#[trigger] markets[j], token),
        at < markets.len() ==> has_token(markets[at], token),
    ensures
        market_with_token(markets, token) == at,
    decreases markets.len(),
{
    if at > 0 {
        let rest = markets.skip(1);
        assert(!has_token(markets[0], token));
        assert forall|j: int| 0 <= j < at - 1 implies !has_token(#[trigger] rest[j], token) by {
            assert(rest[j] == markets[j + 1]);
        }
        lemma_market_with_token(rest, token, at - 1);
    }
}

/// The markets after new prices for a token at `now`. They go to the first
/// outcome that has the token; all else stays.
pub open spec fn repriced<Q>(
    markets: Seq<MarketView<Q>>,
    token: Seq<char>,
    ask_price: Q,
    ask_size: Q,
    bid_price: Q,
    now: Timestamp,
) -> Seq<MarketView<Q>> {
    let at = market_with_token(markets, token);
    if at < markets.len() {
        let market = markets[at];
        let place = seqs::first_at(tokens_of(market.outcomes), token);
        let outcome = OutcomeView { ask_price, ask_size, bid_price, ..market.outcomes[place] };
        markets.update(
            at,
            MarketView {
                outcomes: market.outcomes.update(place, outcome),
                last_updated: now,
                ..market
            },
        )
    } else {
        markets
    }
}

/// A market taken up leaves no condition in two places.
proof fn lemma_taken_up_distinct<Q>(markets: Seq<MarketView<Q>>, market: MarketView<Q>)
    requires
        seqs::distinct(condition_ids(markets)),
    ensures
        seqs::distinct(condition_ids(taken_up(markets, market))),
        taken_up(markets, market).len() == markets.len() + (if seqs::first_at(
            condition_ids(markets),
            market.condition_id,
        ) < markets.len() {
            0int
        } else {
            1
        }),
{
    let ids = condition_ids(markets);
    let after = condition_ids(taken_up(markets, market));
    let at = seqs::first_at(ids, market.condition_id);
    seqs::lemma_first_at(ids, market.condition_id);
    if at < markets.len() {
        assert(after =~= ids);
    } else {
        assert(after =~= ids.push(market.condition_id));
    }
}

/// What a scan did.
#[derive(Debug)]
pub struct ScanReport {
    /// Markets that were not tracked before.
    pub added: usize,
    /// Markets that were.
    pub updated: usize,
    /// Why each market that was passed over was, in the order of the batch.
    pub skip_reasons: Vec<SkipReason>,
    /// Markets tracked now.
    pub total: usize,
}

/// The test for one reason.
pub open spec fn for_reason(reason: SkipReason) -> spec_fn(SkipReason) -> bool {
    |r: SkipReason| r == reason
}

impl ScanReport {
    /// How many markets were passed over for a reason.
    pub fn count_of(&self, reason: SkipReason) -> (r: usize)
        ensures
            r == seqs::count(self.skip_reasons@, for_reason(reason)),
    {
        let mut n: usize = 0;
        let mut i: usize = 0;
        assert(self.skip_reasons@.take(0) =~= Seq::empty());
        while i < self.skip_reasons.len()
            invariant
                n <= i <= self.skip_reasons.len(),
                n == seqs::count(self.skip_reasons@.take(i as int), for_reason(reason)),
            decreases self.skip_reasons.len() - i,
        {
            proof {
                seqs::lemma_count_next(self.skip_reasons@, for_reason(reason), i as int);
            }
            if self.skip_reasons[i] == reason {
                n = n + 1;
            }
            i = i + 1;
        }
        assert(self.skip_reasons@.take(i as int) =~= self.skip_reasons@);
        n
    }
}

/// Counts of tracked markets.
#[derive(Clone, Copy, Debug, PartialEq, Eq, Structural)]
pub struct ScannerStats {
    pub total_markets: usize,
    pub binary_markets: usize,
    pub multi_outcome_markets: usize,
    pub new_markets: usize,
    pub sports_markets: usize,
    pub politics_markets: usize,
    pub crypto_markets: usize,
    pub entertainment_markets: usize,
    pub other_markets: usize,
    pub arb_candidates: usize,
}

/// The test for markets with two outcomes.
pub open spec fn binary<Q>() -> spec_fn(MarketView<Q>) -> bool {
    |m: MarketView<Q>| m.outcomes.len() == 2
}

/// The test for markets with another number of outcomes.
pub open spec fn multi<Q>() -> spec_fn(MarketView<Q>) -> bool {
    |m: MarketView<Q>| m.outcomes.len() != 2
}

/// The test for markets that are new.
pub open spec fn recent<Q>() -> spec_fn(MarketView<Q>) -> bool {
    |m: MarketView<Q>| m.is_new
}

/// The test for markets of a category.
pub open spec fn of_category<Q>(category: MarketCategory) -> spec_fn(MarketView<Q>) -> bool {
    |m: MarketView<Q>| m.category == category
}

/// The test for markets of no category that is counted on its own.
pub open spec fn of_other_category<Q>() -> spec_fn(MarketView<Q>) -> bool {
    |m: MarketView<Q>|
        !(m.category is Sports || m.category is Politics || m.category is Crypto
            || m.category is Entertainment)
}

/// The test for markets with at least so much profit.
pub open spec fn earning<Q: Quantity>(min_profit_cents: int) -> spec_fn(MarketView<Q>) -> bool {
    |m: MarketView<Q>| profit_cents(m) >= min_profit_cents
}

/// The counts of some markets.
pub open spec fn counts<Q: Quantity>(stats: ScannerStats, markets: Seq<MarketView<Q>>) -> bool {
    &&& stats.binary_markets == seqs::count(markets, binary())
    &&& stats.multi_outcome_markets == seqs::count(markets, multi())
    &&& stats.new_markets == seqs::count(markets, recent())
    &&& stats.sports_markets == seqs::count(markets, of_category(MarketCategory::Sports))
    &&& stats.politics_markets == seqs::count(markets, of_category(MarketCategory::Politics))
    &&& stats.crypto_markets == seqs::count(markets, of_category(MarketCategory::Crypto))
    &&& stats.entertainment_markets == seqs::count(
        markets,
        of_category(MarketCategory::Entertainment),
    )
    &&& stats.other_markets == seqs::count(markets, of_other_category())
    &&& stats.arb_candidates == seqs::count(markets, earning(1))
}

/// What the counts say.
pub open spec fn stats_text(stats: ScannerStats) -> Seq<char> {
    "Markets: "@ + text::decimal_text(stats.total_markets as nat) + " total ("@
        + text::decimal_text(stats.binary_markets as nat) + " binary, "@ + text::decimal_text(
        stats.multi_outcome_markets as nat,
    ) + " multi) | New: "@ + text::decimal_text(stats.new_markets as nat) + " | Arb candidates: "@
        + text::decimal_text(stats.arb_candidates as nat) + " | By category: Sports="@
        + text::decimal_text(stats.sports_markets as nat) + ", Politics="@ + text::decimal_text(
        stats.politics_markets as nat,
    ) + ", Crypto="@ + text::decimal_text(stats.crypto_markets as nat) + ", Entertainment="@
        + text::decimal_text(stats.entertainment_markets as nat)
}

impl ScannerStats {
    /// The counts in one line.
    pub fn to_text(&self) -> (r: String)
        ensures
            r@ == stats_text(*self),
    {
        let mut s: String = "Markets: ".to_string();
        s.append(text::decimal(self.total_markets as u64).as_str());
        s.append(" total (");
        s.append(text::decimal(self.binary_markets as u64).as_str());
        s.append(" binary, ");
        s.append(text::decimal(self.multi_outcome_markets as u64).as_str());
        s.append(" multi) | New: ");
        s.append(text::decimal(self.new_markets as u64).as_str());
        s.append(" | Arb candidates: ");
        s.append(text::decimal(self.arb_candidates as u64).as_str());
        s.append(" | By category: Sports=");
        s.append(text::decimal(self.sports_markets as u64).as_str());
        s.append(", Politics=");
        s.append(text::decimal(self.politics_markets as u64).as_str());
        s.append(", Crypto=");
        s.append(text::decimal(self.crypto_markets as u64).as_str());
        s.append(", Entertainment=");
        s.append(text::decimal(self.entertainment_markets as u64).as_str());
        s
    }
}

impl Default for ScannerStats {
    fn default() -> (r: Self)
        ensures
            r == (ScannerStats {
                total_markets: 0,
                binary_markets: 0,
                multi_outcome_markets: 0,
                new_markets: 0,
                sports_markets: 0,
                politics_markets: 0,
                crypto_markets: 0,
                entertainment_markets: 0,
                other_markets: 0,
                arb_candidates: 0,
            }),
    {
        ScannerStats {
            total_markets: 0,
            binary_markets: 0,
            multi_outcome_markets: 0,
            new_markets: 0,
            sports_markets: 0,
            politics_markets: 0,
            crypto_markets: 0,
            entertainment_markets: 0,
            other_markets: 0,
            arb_candidates: 0,
        }
    }
}

/// The tracked markets.
pub struct MarketScanner<Q> {
    /// No condition stands twice.
    pub markets: Vec<TrackedMarket<Q>>,
}

impl<Q> View for MarketScanner<Q> {
    type V = Seq<MarketView<Q>>;

    open spec fn view(&self) -> Seq<MarketView<Q>> {
        market_views(self.markets@)
    }
}

impl<Q: Quantity> MarketScanner<Q> {
    /// No condition is tracked twice.
    pub open spec fn wf(self) -> bool {
        seqs::distinct(condition_ids(self@))
    }

    /// No markets.
    pub fn new() -> (r: Self)
        ensures
            r.wf(),
            r@ == Seq::<MarketView<Q>>::empty(),
    {
        let r = MarketScanner { markets: Vec::new() };
        assert(r@ =~= Seq::empty());
        r
    }

    /// Reads a listed market and decides whether it is tracked, and why not
    /// where it is not.
    pub fn process_market_with_reason(market: &GammaMarket, now: Timestamp) -> (r: Result<
        TrackedMarket<Q>,
        SkipReason,
    >)
        ensures
            match r {
                Ok(taken) => skipped_at::<Q>(*market, now) is None && taken@ == tracked_from::<Q>(
                    *market,
                    reading_of(*market),
                    now,
                ),
                Err(reason) => skipped_at::<Q>(*market, now) == Some(reason),
            },
    {
        let reading = read_market(market);
        assess_market(market, &reading, now)
    }

    /// Reads a listed market: an error where a field is missing, nothing where
    /// the market is passed over.
    pub fn process_market(market: &GammaMarket, now: Timestamp) -> (r: Result<
        Option<TrackedMarket<Q>>,
        MissingField,
    >)
        ensures
            match skipped_at::<Q>(*market, now) {
                None => r matches Ok(Some(taken)) && taken@ == tracked_from::<Q>(
                    *market,
                    reading_of(*market),
                    now,
                ),
                Some(reason) => match missing_field(reason) {
                    Some(field) => r == Err::<Option<TrackedMarket<Q>>, _>(field),
                    None => r == Ok::<_, MissingField>(None::<TrackedMarket<Q>>),
                },
            },
    {
        without_reason(MarketScanner::process_market_with_reason(market, now))
    }

    fn find(&self, condition_id: &str) -> (r: usize)
        ensures
            r == seqs::first_at(condition_ids(self@), condition_id@),
            r <= self.markets.len(),
    {
        let ghost keys = condition_ids(self@);
        let mut i: usize = 0;
        while i < self.markets.len()
            invariant
                keys == condition_ids(self@),
                i <= self.markets.len(),
                forall|j: int| 0 <= j < i ==> #[trigger] keys[j] != condition_id@,
            decreases self.markets.len() - i,
        {
            if text::same(self.markets[i].condition_id.as_str(), condition_id) {
                proof {
                    seqs::lemma_is_first_at(keys, condition_id@, i as int);
                }
                return i;
            }
            assert(keys[i as int] != condition_id@);
            i = i + 1;
        }
        proof {
            seqs::lemma_is_first_at(keys, condition_id@, i as int);
        }
        i
    }

    fn take_up(&mut self, market: TrackedMarket<Q>) -> (r: bool)
        requires
            old(self).wf(),
        ensures
            final(self).wf(),
            final(self)@ == taken_up(old(self)@, market@),
            r == (seqs::first_at(condition_ids(old(self)@), market@.condition_id)
                == old(self)@.len()),
            final(self)@.len() == old(self)@.len() + (if r {
                1int
            } else {
                0
            }),
    {
        proof {
            lemma_taken_up_distinct(self@, market@);
        }
        let ghost before = self@;
        let at: usize = self.find(market.condition_id.as_str());
        let is_added: bool = at == self.markets.len();
        let ghost taken = market@;
        if is_added {
            self.markets.push(market);
        } else {
            self.markets.set(at, market);
        }
        assert(self@ =~= taken_up(before, taken));
        is_added
    }

    /// Goes through a batch of listed markets and takes up those that pass.
    pub fn scan_markets(&mut self, batch: &Vec<GammaMarket>, now: Timestamp) -> (r: ScanReport)
        requires
            old(self).wf(),
        ensures
            final(self).wf(),
            final(self)@ == after_scan(old(self)@, batch@, now, batch.len() as int),
            r.total == final(self)@.len(),
            r.added == final(self)@.len() - old(self)@.len(),
            r.skip_reasons@ == scan_skips::<Q>(batch@, now, batch.len() as int),
            r.added + r.updated + r.skip_reasons.len() == batch.len(),
    {
        let ghost before = self@;
        let mut added: usize = 0;
        let mut updated: usize = 0;
        let mut skip_reasons: Vec<SkipReason> = Vec::new();
        let mut i: usize = 0;
        while i < batch.len()
            invariant
                i <= batch.len(),
                self.wf(),
                self@ == after_scan(before, batch@, now, i as int),
                skip_reasons@ == scan_skips::<Q>(batch@, now, i as int),
                added == self@.len() - before.len(),
                added + updated + skip_reasons.len() == i,
            decreases batch.len() - i,
        {
            match MarketScanner::process_market_with_reason(&batch[i], now) {
                Ok(market) => {
                    if self.take_up(market) {
                        added = added + 1;
                    } else {
                        updated = updated + 1;
                    }
                },
                Err(reason) => {
                    skip_reasons.push(reason);
                },
            }
            i = i + 1;
        }
        ScanReport { added, updated, skip_reasons, total: self.markets.len() }
    }

    /// All tracked markets.
    pub fn get_markets(&self) -> (r: &Vec<TrackedMarket<Q>>)
        ensures
            market_views(r@) == self@,
    {
        &self.markets
    }

    /// The market with this condition.
    pub fn get_market(&self, condition_id: &str) -> (r: Option<&TrackedMarket<Q>>)
        ensures
            ({
                let at = seqs::first_at(condition_ids(self@), condition_id@);
                match r {
                    Some(market) => at < self@.len() && market@ == self@[at],
                    None => at == self@.len(),
                }
            }),
    {
        let at: usize = self.find(condition_id);
        if at < self.markets.len() {
            Some(&self.markets[at])
        } else {
            None
        }
    }

    /// The tokens of all outcomes of all markets.
    pub fn get_all_token_ids(&self) -> (r: Vec<String>)
        ensures
            text::views(r@) == all_tokens(self@),
    {
        let mut tokens: Vec<String> = Vec::new();
        let mut i: usize = 0;
        assert(text::views(tokens@) =~= Seq::empty());
        assert(self@.take(0) =~= Seq::empty());
        while i < self.markets.len()
            invariant
                i <= self.markets.len(),
                text::views(tokens@) == all_tokens(self@.take(i as int)),
            decreases self.markets.len() - i,
        {
            let market = &self.markets[i];
            let ghost own = tokens_of(market@.outcomes);
            let ghost so_far = all_tokens(self@.take(i as int));
            let mut j: usize = 0;
            assert(so_far + own.take(0) =~= so_far);
            while j < market.outcomes.len()
                invariant
                    own == tokens_of(market@.outcomes),
                    j <= market.outcomes.len(),
                    text::views(tokens@) == so_far + own.take(j as int),
                decreases market.outcomes.len() - j,
            {
                let ghost was = tokens@;
                tokens.push(market.outcomes[j].token_id.clone());
                assert(text::views(tokens@) =~= text::views(was).push(own[j as int]));
                assert(so_far + own.take(j + 1) =~= (so_far + own.take(j as int)).push(
                    own[j as int],
                ));
                j = j + 1;
            }
            assert(own.take(j as int) =~= own);
            assert(self@.take(i + 1).drop_last() =~= self@.take(i as int));
            assert(self@.take(i + 1).last() == market@);
            i = i + 1;
        }
        assert(self@.take(i as int) =~= self@);
        tokens
    }

    /// Puts new prices on the outcome with this token; an unknown token changes
    /// nothing.
    pub fn update_outcome_price(
        &mut self,
        token_id: &str,
        ask_price: Q,
        ask_size: Q,
        bid_price: Q,
        now: Timestamp,
    )
        requires
            old(self).wf(),
        ensures
            final(self).wf(),
            final(self)@ == repriced(old(self)@, token_id@, ask_price, ask_size, bid_price, now),
    {
        let ghost before = self@;
        let mut i: usize = 0;
        while i < self.markets.len()
            invariant
                before == old(self)@,
                self@ == before,
                self.wf(),
                i <= self.markets.len(),
                forall|k: int| 0 <= k < i ==> !has_token(#[trigger] before[k], token_id@),
            decreases self.markets.len() - i,
        {
            let ghost keys = tokens_of(before[i as int].outcomes);
            let mut j: usize = 0;
            while j < self.markets[i].outcomes.len()
                invariant
                    before == old(self)@,
                    self@ == before,
                    self.wf(),
                    i < self.markets.len(),
                    keys == tokens_of(before[i as int].outcomes),
                    j <= self.markets@[i as int].outcomes.len(),
                    forall|k: int| 0 <= k < i ==> !has_token(#[trigger] before[k], token_id@),
                    forall|k: int| 0 <= k < j ==> #[trigger] keys[k] != token_id@,
                decreases self.markets@[i as int].outcomes.len() - j,
            {
                if text::same(self.markets[i].outcomes[j].token_id.as_str(), token_id) {
                    proof {
                        assert(before[i as int] == self.markets@[i as int]@);
                        assert(keys[j as int] == token_id@);
                        seqs::lemma_is_first_at(keys, token_id@, j as int);
                        lemma_market_with_token(before, token_id@, i as int);
                    }
                    let market = &mut self.markets[i];
                    market.last_updated = now;
                    let outcome = &mut market.outcomes[j];
                    outcome.ask_price = ask_price;
                    outcome.ask_size = ask_size;
                    outcome.bid_price = bid_price;
                    proof {
                        let after = repriced(
                            before,
                            token_id@,
                            ask_price,
                            ask_size,
                            bid_price,
                            now,
                        );
                        assert(self@[i as int].outcomes =~= after[i as int].outcomes);
                        assert(self@ =~= after);
                        assert(condition_ids(self@) =~= condition_ids(before));
                    }
                    return;
                }
                assert(before[i as int] == self.markets@[i as int]@);
                assert(keys[j as int] != token_id@);
                j = j + 1;
            }
            proof {
                seqs::lemma_is_first_at(keys, token_id@, j as int);
            }
            i = i + 1;
        }
        proof {
            lemma_market_with_token(before, token_id@, i as int);
        }
    }

    /// How many markets are tracked.
    pub fn market_count(&self) -> (r: usize)
        ensures
            r == self@.len(),
    {
        self.markets.len()
    }

    /// The markets with at least so much profit.
    pub fn get_arb_candidates(&self, min_profit_cents: i16) -> (r: Vec<&TrackedMarket<Q>>)
        ensures
            market_views(r@.unref()) == self@.filter(earning(min_profit_cents as int)),
    {
        let ghost keep = earning::<Q>(min_profit_cents as int);
        let mut found: Vec<&TrackedMarket<Q>> = Vec::new();
        let mut i: usize = 0;
        proof {
            reveal(Seq::filter);
            assert(self@.take(0) =~= Seq::empty());
            assert(market_views(found@.unref()) =~= Seq::empty());
        }
        while i < self.markets.len()
            invariant
                keep == earning::<Q>(min_profit_cents as int),
                i <= self.markets.len(),
                market_views(found@.unref()) == self@.take(i as int).filter(keep),
            decreases self.markets.len() - i,
        {
            let market = &self.markets[i];
            proof {
                seqs::lemma_filter_next(self@, keep, i as int);
                assert(self@[i as int] == market@);
            }
            if market.potential_profit_cents() >= min_profit_cents {
                let ghost was = market_views(found@.unref());
                found.push(market);
                assert(market_views(found@.unref()) =~= was.push(market@));
            }
            i = i + 1;
        }
        assert(self@.take(i as int) =~= self@);
        found
    }

    /// The markets that are less than a day old.
    pub fn get_new_markets(&self) -> (r: Vec<&TrackedMarket<Q>>)
        ensures
            market_views(r@.unref()) == self@.filter(recent()),
    {
        let ghost keep = recent::<Q>();
        let mut found: Vec<&TrackedMarket<Q>> = Vec::new();
        let mut i: usize = 0;
        proof {
            reveal(Seq::filter);
            assert(self@.take(0) =~= Seq::empty());
            assert(market_views(found@.unref()) =~= Seq::empty());
        }
        while i < self.markets.len()
            invariant
                keep == recent::<Q>(),
                i <= self.markets.len(),
                market_views(found@.unref()) == self@.take(i as int).filter(keep),
            decreases self.markets.len() - i,
        {
            let market = &self.markets[i];
            proof {
                seqs::lemma_filter_next(self@, keep, i as int);
                assert(self@[i as int] == market@);
            }
            if market.is_new {
                let ghost was = market_views(found@.unref());
                found.push(market);
                assert(market_views(found@.unref()) =~= was.push(market@));
            }
            i = i + 1;
        }
        assert(self@.take(i as int) =~= self@);
        found
    }

    /// The counts of the markets.
    pub fn get_stats(&self) -> (r: ScannerStats)
        ensures
            r.total_markets == self@.len(),
            counts(r, self@),
    {
        let mut stats = ScannerStats::default();
        stats.total_markets = self.markets.len();
        let mut i: usize = 0;
        assert(self@.take(0) =~= Seq::empty());
        while i < self.markets.len()
            invariant
                i <= self.markets.len(),
                stats.total_markets == self.markets.len(),
                counts(stats, self@.take(i as int)),
            decreases self.markets.len() - i,
        {
            let market = &self.markets[i];
            proof {
                let all = self@;
                let at = i as int;
                assert(all[at] == market@);
                seqs::lemma_count_next(all, binary(), at);
                seqs::lemma_count_next(all, multi(), at);
                seqs::lemma_count_next(all, recent(), at);
                seqs::lemma_count_next(all, of_category(MarketCategory::Sports), at);
                seqs::lemma_count_next(all, of_category(MarketCategory::Politics), at);
                seqs::lemma_count_next(all, of_category(MarketCategory::Crypto), at);
                seqs::lemma_count_next(all, of_category(MarketCategory::Entertainment), at);
                seqs::lemma_count_next(all, of_other_category(), at);
                seqs::lemma_count_next(all, earning(1), at);
            }
            if market.is_binary() {
                stats.binary_markets = stats.binary_markets + 1;
            } else {
                stats.multi_outcome_markets = stats.multi_outcome_markets + 1;
            }
            if market.is_new {
                stats.new_markets = stats.new_markets + 1;
            }
            match market.category {
                MarketCategory::Sports => {
                    stats.sports_markets = stats.sports_markets + 1;
                },
                MarketCategory::Politics => {
                    stats.politics_markets = stats.politics_markets + 1;
                },
                MarketCategory::Crypto => {
                    stats.crypto_markets = stats.crypto_markets + 1;
                },
                MarketCategory::Entertainment => {
                    stats.entertainment_markets = stats.entertainment_markets + 1;
                },
                _ => {
                    stats.other_markets = stats.other_markets + 1;
                },
            }
            if market.potential_profit_cents() > 0 {
                stats.arb_candidates = stats.arb_candidates + 1;
            }
            i = i + 1;
        }
        assert(self@.take(i as int) =~= self@);
        stats
    }

    /// How many markets have two outcomes.
    pub fn binary_market_count(&self) -> (r: usize)
        ensures
            r == seqs::count(self@, binary()),
    {
        self.get_stats().binary_markets
    }

    /// How many markets have another number of outcomes.
    pub fn multi_outcome_count(&self) -> (r: usize)
        ensures
            r == seqs::count(self@, multi()),
    {
        self.get_stats().multi_outcome_markets
    }
}

impl<Q: Quantity> Default for MarketScanner<Q> {
    fn default() -> (r: Self)
        ensures
            r.wf(),
            r@ == Seq::<MarketView<Q>>::empty(),
    {
        MarketScanner::new()
    }
}

/// Whether a market meets the filters on question, outcomes, volume and category.
pub open spec fn meets_filters<Q: Quantity>(market: MarketView<Q>) -> bool {
    &&& !config::is_skipped(market.question)
    &&& MIN_OUTCOMES <= market.outcomes.len() <= MAX_OUTCOMES
    &&& !market.volume_usd.at_most_spec(Q::from_int_spec(MIN_VOLUME_USD as i128))
    &&& config::category_enabled(market.category)
}

/// Whether a market, where it is known when it ends, meets the filter on that.
pub open spec fn ends_in_time<Q>(market: MarketView<Q>, now: Timestamp) -> bool {
    market.end_date matches Some(end) ==> 0 <= timestamp::days_between(end, now)
        < MAX_DAYS_TO_EXPIRY
}

/// Whether all markets meet the filters.
pub open spec fn all_meet_filters<Q: Quantity>(markets: Seq<MarketView<Q>>) -> bool {
    forall|i: int| 0 <= i < markets.len() ==> meets_filters(#[trigger] markets[i])
}

/// Only markets that meet the filters are ever tracked: a scan keeps it so,
/// whatever the batch holds. Those that it adds end in time as well.
pub proof fn law_scan_admits_by_filters<Q: Quantity>(
    markets: Seq<MarketView<Q>>,
    batch: Seq<GammaMarket>,
    now: Timestamp,
    n: int,
)
    requires
        all_meet_filters(markets),
        0 <= n <= batch.len(),
    ensures
        all_meet_filters(after_scan(markets, batch, now, n)),
        after_scan(markets, batch, now, n).len() >= markets.len(),
        forall|i: int|
            markets.len() <= i < after_scan(markets, batch, now, n).len() ==> ends_in_time(
                #[trigger] after_scan(markets, batch, now, n)[i],
                now,
            ),
    decreases n,
{
    if n > 0 {
        law_scan_admits_by_filters(markets, batch, now, n - 1);
        let before = after_scan(markets, batch, now, n - 1);
        let market = batch[n - 1];
        if skipped_at::<Q>(market, now) is None {
            let taken = tracked_from::<Q>(market, reading_of(market), now);
            seqs::lemma_first_at(condition_ids(before), taken.condition_id);
            assert(meets_filters(taken));
            assert(ends_in_time(taken, now));
        }
    }
}

/// A scan forgets no market: each stays in its place, under its condition.
pub proof fn law_scan_forgets_no_market<Q: Quantity>(
    markets: Seq<MarketView<Q>>,
    batch: Seq<GammaMarket>,
    now: Timestamp,
    n: int,
    i: int,
)
    requires
        0 <= n <= batch.len(),
        0 <= i < markets.len(),
    ensures
        after_scan(markets, batch, now, n).len() >= markets.len(),
        after_scan(markets, batch, now, n)[i].condition_id == markets[i].condition_id,
    decreases n,
{
    if n > 0 {
        law_scan_forgets_no_market(markets, batch, now, n - 1, i);
        let before = after_scan(markets, batch, now, n - 1);
        let market = batch[n - 1];
        let taken = tracked_from::<Q>(market, reading_of(market), now);
        let ids = condition_ids(before);
        seqs::lemma_first_at(ids, taken.condition_id);
        assert(ids[i] == before[i].condition_id);
    }
}

/// New prices keep the filters met and the conditions as they are, and change
/// at most one market.
pub proof fn law_reprice_keeps<Q: Quantity>(
    markets: Seq<MarketView<Q>>,
    token: Seq<char>,
    ask_price: Q,
    ask_size: Q,
    bid_price: Q,
    now: Timestamp,
)
    requires
        all_meet_filters(markets),
    ensures
        ({
            let after = repriced(markets, token, ask_price, ask_size, bid_price, now);
            &&& all_meet_filters(after)
            &&& condition_ids(after) == condition_ids(markets)
            &&& forall|i: int|
                0 <= i < markets.len() && i != market_with_token(markets, token)
                    ==> #[trigger] after[i] == markets[i]
        }),
{
    let after = repriced(markets, token, ask_price, ask_size, bid_price, now);
    let at = market_with_token(markets, token);
    lemma_market_with_token_range(markets, token);
    if at < markets.len() {
        seqs::lemma_first_at(tokens_of(markets[at].outcomes), token);
        assert(meets_filters(after[at]));
    }
    assert(condition_ids(after) =~= condition_ids(markets));
}

proof fn lemma_market_with_token_range<Q>(markets: Seq<MarketView<Q>>, token: Seq<char>)
    ensures
        0 <= market_with_token(markets, token) <= markets.len(),
        market_with_token(markets, token) < markets.len() ==> has_token(
            markets[market_with_token(markets, token)],
            token,
        ),
    decreases markets.len(),
{
    if markets.len() > 0 && !has_token(markets[0], token) {
        lemma_market_with_token_range(markets.skip(1), token);
    }
}

/// A listed market that is not passed over is tracked after the scan that
/// reads it last.
pub proof fn law_passing_market_is_tracked<Q: Quantity>(
    markets: Seq<MarketView<Q>>,
    batch: Seq<GammaMarket>,
    now: Timestamp,
)
    requires
        batch.len() > 0,
        skipped_at::<Q>(batch.last(), now) is None,
    ensures
        after_scan(markets, batch, now, batch.len() as int).contains(
            tracked_from(batch.last(), reading_of(batch.last()), now),
        ),
{
    let before = after_scan(markets, batch, now, batch.len() - 1);
    let after = after_scan(markets, batch, now, batch.len() as int);
    let taken = tracked_from::<Q>(batch.last(), reading_of(batch.last()), now);
    let at = seqs::first_at(condition_ids(before), taken.condition_id);
    seqs::lemma_first_at(condition_ids(before), taken.condition_id);
    assert(after[at] == taken);
}

/// Every market has two outcomes or another number of them.
pub proof fn law_stats_split<Q: Quantity>(stats: ScannerStats, markets: Seq<MarketView<Q>>)
    requires
        counts(stats, markets),
    ensures
        stats.binary_markets + stats.multi_outcome_markets == markets.len(),
{
    seqs::lemma_count_split(markets, binary(), multi());
}

/// The millionths of some decimals together.
pub open spec fn total_units(numbers: Seq<Decimal>) -> int
    decreases numbers.len(),
{
    if numbers.len() == 0 {
        0
    } else {
        total_units(numbers.drop_last()) + numbers.last().units
    }
}

/// Decimals that are not negative add up exactly, up to the largest of all.
proof fn lemma_sum_of_decimals(numbers: Seq<Decimal>)
    requires
        forall|i: int| 0 <= i < numbers.len() ==> (#[trigger] numbers[i]).units >= 0,
    ensures
        total_units(numbers) >= 0,
        sum_up(numbers).units == quantity::clamp_units(total_units(numbers)),
    decreases numbers.len(),
{
    if numbers.len() > 0 {
        let front = numbers.drop_last();
        assert forall|i: int| 0 <= i < front.len() implies (#[trigger] front[i]).units >= 0 by {
            assert(numbers[i] == front[i]);
        }
        lemma_sum_of_decimals(front);
        assert(numbers[numbers.len() - 1].units >= 0);
    }
}

/// The profit of a market is a dollar less what all its outcomes cost, to the
/// nearest cent, and there is none where they cost a dollar or more.
pub proof fn law_profit_is_a_dollar_less_the_cost(market: MarketView<Decimal>)
    requires
        forall|i: int|
            0 <= i < market.outcomes.len() ==> (#[trigger] market.outcomes[i]).ask_price.units >= 0,
    ensures
        ({
            let cost = total_units(asks(market));
            profit_cents(market) == (if cost < 1_000_000 {
                (1_000_000 - cost + 5_000) / 10_000
            } else {
                0
            })
        }),
{
    let prices = asks(market);
    assert forall|i: int| 0 <= i < prices.len() implies (#[trigger] prices[i]).units >= 0 by {
        assert(prices[i] == market.outcomes[i].ask_price);
    }
    lemma_sum_of_decimals(prices);
    let cost = total_units(prices);
    let one = Decimal::from_int_spec(1);
    assert(one.units == 1_000_000);
    if cost < 1_000_000 {
        let left = one.minus_spec(sum_up(prices));
        assert(left.units == 1_000_000 - cost);
        let hundred = Decimal::from_int_spec(100);
        assert(hundred.units == 100_000_000);
        assert(left.units * 100_000_000 / 1_000_000 == left.units * 100) by (nonlinear_arith);
        let cents = left.times_spec(hundred);
        assert(left.units * hundred.units == left.units * 100_000_000);
        assert(left.units * 100_000_000 >= 0);
        assert(cents.units == left.units * 100);
        assert((left.units * 100 + 500_000) / 1_000_000 == (left.units + 5_000) / 10_000);
    }
}

/// Decimals that are not negative add up exactly, up to the largest of all.
pub proof fn law_decimals_add_up(numbers: Seq<Decimal>)
    requires
        forall|i: int| 0 <= i < numbers.len() ==> (#[trigger] numbers[i]).units >= 0,
    ensures
        sum_up(numbers).units == quantity::clamp_units(total_units(numbers)),
        total_units(numbers) >= 0,
{
    lemma_sum_of_decimals(numbers);
}

/// The filters admit as well as refuse: a listed market is tracked exactly where
/// it has a condition and a question that is not ruled out, two to eight outcomes
/// and as many tokens, more than $50,000 of volume, an end that is unknown or
/// less than thirty days ahead and not past by a day, and a category that is
/// traded.
pub proof fn law_filters_admit(market: GammaMarket, now: Timestamp)
    ensures
        skipped_at::<Decimal>(market, now) is None <==> {
            &&& market.condition_id is Some
            &&& market.question matches Some(q) && !config::is_skipped(q@)
            &&& market.outcomes matches Some(o) && (gamma::json_strings(o@) matches Some(names) && 2
                <= names.len() <= 8 && (gamma::json_strings(
                match market.clob_token_ids {
                    Some(t) => t@,
                    None => "[]"@,
                },
            ) matches Some(tokens) && tokens.len() == names.len()))
            &&& market.volume matches Some(v) && (Decimal::parse_spec(v@) matches Some(n) && n.units
                > 50_000_000_000)
            &&& (market.end_date matches Some(e) && (timestamp::instant_of(e@) matches Some(end) && !(
            0 <= timestamp::days_between(end, now) < 30))) ==> false
            &&& ({
                let category = config::category_of(
                    config::lowercase_tags(
                        match market.tags {
                            Some(tags) => tags@,
                            None => Seq::empty(),
                        },
                    ),
                );
                category is Sports || category is Politics || category is Crypto
                    || category is Entertainment
            })
        },
{
    assert(Decimal::from_int_spec(50_000).units == 50_000_000_000);
}

/// A reason for passing a market over holds, and is the first that does, in this
/// order: condition, question, its words, outcomes, tokens, volume, end, category.
pub proof fn law_reasons_hold_in_order(market: GammaMarket, now: Timestamp)
    ensures
        ({
            let reason = skipped_at::<Decimal>(market, now);
            let named = market.condition_id is Some && market.question is Some;
            let wanted = named && !config::is_skipped(market.question.unwrap()@);
            let names = gamma::json_strings(market.outcomes.unwrap()@);
            let read = wanted && market.outcomes is Some && names is Some;
            let few = read && 2 <= names.unwrap().len() <= 8;
            let tokens = gamma::json_strings(
                match market.clob_token_ids {
                    Some(t) => t@,
                    None => "[]"@,
                },
            );
            let paired = few && tokens is Some && tokens.unwrap().len() == names.unwrap().len();
            let volume = number_field::<Decimal>(market.volume).units;
            let sold = paired && volume > 50_000_000_000;
            let end = reading_of(market).end_date;
            let days = timestamp::days_between(end.unwrap(), now);
            &&& reason == Some(SkipReason::NoConditionId) <==> market.condition_id is None
            &&& reason == Some(SkipReason::NoQuestion) <==> market.condition_id is Some
                && market.question is None
            &&& reason == Some(SkipReason::KeywordFilter) <==> named && !wanted
            &&& reason == Some(SkipReason::NoOutcomes) <==> wanted && market.outcomes is None
            &&& reason == Some(SkipReason::OutcomesParseFail) <==> wanted && market.outcomes is Some
                && names is None
            &&& reason == Some(SkipReason::EmptyOutcomes) <==> read && names.unwrap().len() == 0
            &&& reason == Some(SkipReason::TooFewOutcomes) <==> read && names.unwrap().len() == 1
            &&& reason == Some(SkipReason::TooManyOutcomes) <==> read && names.unwrap().len() > 8
            &&& reason == Some(SkipReason::TokenParseFail) <==> few && tokens is None
            &&& reason == Some(SkipReason::TokenOutcomeMismatch) <==> few && tokens is Some
                && !paired
            &&& reason == Some(SkipReason::LowVolume) <==> paired && !sold
            &&& reason == Some(SkipReason::Expired) <==> sold && end is Some && days < 0
            &&& reason == Some(SkipReason::TooFarExpiry) <==> sold && end is Some && days >= 30
            &&& reason == Some(SkipReason::CategoryDisabled) ==> sold && (end is Some ==> 0 <= days
                < 30)
        }),
{
    assert(Decimal::from_int_spec(50_000).units == 50_000_000_000);
}

/// The three errors are the lack of condition, question and outcomes; all else
/// that passes a market over is none.
pub proof fn law_only_missing_fields_are_errors(market: GammaMarket, now: Timestamp)
    ensures
        ({
            let reason = skipped_at::<Decimal>(market, now);
            &&& reason matches Some(r) ==> (missing_field(r) == Some(MissingField::ConditionId) <==>
                market.condition_id is None)
            &&& reason matches Some(r) ==> (missing_field(r) == Some(MissingField::Question)
                ==> market.question is None)
            &&& reason matches Some(r) ==> (missing_field(r) == Some(MissingField::Outcomes)
                ==> market.outcomes is None)
            &&& market.condition_id is Some && market.question is None ==> reason is Some
                && missing_field(reason.unwrap()) == Some(MissingField::Question)
            &&& market.condition_id is Some && market.question is Some && market.outcomes is Some
                && reason is Some ==> missing_field(reason.unwrap()) is None
        }),
{
}

/// A tracked market is as it was listed: each outcome has its name, its token and
/// its price, where that is a number; what is not said of it is unknown, not
/// active and closed.
pub proof fn law_tracked_market_is_as_listed(market: GammaMarket, now: Timestamp, i: int)
    requires
        skipped_at::<Decimal>(market, now) is None,
        0 <= i < tracked_from::<Decimal>(market, reading_of(market), now).outcomes.len(),
    ensures
        ({
            let taken = tracked_from::<Decimal>(market, reading_of(market), now);
            let names = gamma::json_strings(market.outcomes.unwrap()@).unwrap();
            let tokens = gamma::json_strings(text_or(market.clob_token_ids, "[]"@)).unwrap();
            let prices = gamma::json_strings(text_or(market.outcome_prices, "[]"@));
            &&& taken.condition_id == market.condition_id.unwrap()@
            &&& taken.question == market.question.unwrap()@
            &&& market.slug matches Some(slug) ==> taken.slug == slug@
            &&& market.slug is None ==> taken.slug.len() == 0
            &&& taken.outcomes.len() == names.len()
            &&& taken.outcomes[i].name == names[i]
            &&& taken.outcomes[i].token_id == tokens[i]
            &&& prices is None || prices.unwrap().len() <= i || Decimal::parse_spec(
                prices.unwrap()[i],
            ) is None ==> taken.outcomes[i].ask_price.units == 0
            &&& prices is Some && i < prices.unwrap().len() && Decimal::parse_spec(
                prices.unwrap()[i],
            ) is Some ==> taken.outcomes[i].ask_price == Decimal::parse_spec(
                prices.unwrap()[i],
            ).unwrap()
            &&& taken.outcomes[i].ask_size.units == 0
            &&& taken.outcomes[i].bid_price.units == 0
            &&& market.active == Some(true) <==> taken.active
            &&& market.closed == Some(false) <==> !taken.closed
            &&& taken.last_updated == now
            &&& market.start_date is None ==> taken.created_at is None
            &&& market.start_date matches Some(d) ==> taken.created_at == timestamp::instant_of(d@)
            &&& market.end_date is None ==> taken.end_date is None
            &&& market.end_date matches Some(d) ==> taken.end_date == timestamp::instant_of(d@)
            &&& market.tags matches Some(tags) ==> taken.tags.len() == tags.len()
                && taken.category == config::category_of(config::lowercase_tags(tags@))
            &&& market.liquidity matches Some(l) ==> (Decimal::parse_spec(l@) is Some
                ==> taken.liquidity_usd == Decimal::parse_spec(l@).unwrap())
            &&& market.volume matches Some(v) ==> Decimal::parse_spec(v@) == Some(taken.volume_usd)
        }),
{
    assert(Decimal::from_int_spec(50_000).units == 50_000_000_000);
}

/// A market is new in the first day of its life: not before it begins by an hour,
/// and not once 24 hours have passed.
pub proof fn law_new_for_a_day(created: Timestamp, now: Timestamp)
    requires
        created.nanos < 1_000_000_000,
        now.nanos < 1_000_000_000,
    ensures
        ({
            let age = (now.secs - created.secs) * 1_000_000_000 + now.nanos - created.nanos;
            is_new_at(Some(created), now) <==> -3_600_000_000_000 < age < 86_400_000_000_000
        }),
        !is_new_at(None, now),
{
    let age = (now.secs - created.secs) * 1_000_000_000 + now.nanos - created.nanos;
    if age >= 0 {
        timestamp::law_spans_are_whole_days_and_hours(now, created);
    } else {
        timestamp::law_spans_are_whole_days_and_hours(created, now);
    }
}

/// A market that ends within thirty days is told by the time that is left: not a
/// whole day past, and less than thirty days ahead.
pub proof fn law_end_is_told_by_the_time_left(end: Timestamp, now: Timestamp)
    requires
        end.nanos < 1_000_000_000,
        now.nanos < 1_000_000_000,
    ensures
        ({
            let left = (end.secs - now.secs) * 1_000_000_000 + end.nanos - now.nanos;
            0 <= timestamp::days_between(end, now) < 30 <==> -86_400_000_000_000 < left
                < 2_592_000_000_000_000
        }),
{
    let left = (end.secs - now.secs) * 1_000_000_000 + end.nanos - now.nanos;
    if left >= 0 {
        timestamp::law_spans_are_whole_days_and_hours(end, now);
    } else {
        timestamp::law_spans_are_whole_days_and_hours(now, end);
    }
}

/// What a scan tracks was tracked before or is one of the markets that it read
/// and did not pass over.
pub proof fn law_scan_tracks_nothing_else<Q: Quantity>(
    markets: Seq<MarketView<Q>>,
    batch: Seq<GammaMarket>,
    now: Timestamp,
    n: int,
    i: int,
)
    requires
        0 <= n <= batch.len(),
        0 <= i < after_scan(markets, batch, now, n).len(),
    ensures
        ({
            let after = after_scan(markets, batch, now, n);
            ||| i < markets.len() && after[i] == markets[i]
            ||| exists|k: int|
                0 <= k < n && skipped_at::<Q>(#[trigger] batch[k], now) is None && after[i]
                    == tracked_from::<Q>(batch[k], reading_of(batch[k]), now)
        }),
    decreases n,
{
    if n > 0 {
        let before = after_scan(markets, batch, now, n - 1);
        let after = after_scan(markets, batch, now, n);
        let market = batch[n - 1];
        let taken = tracked_from::<Q>(market, reading_of(market), now);
        if skipped_at::<Q>(market, now) is None {
            let at = seqs::first_at(condition_ids(before), taken.condition_id);
            seqs::lemma_first_at(condition_ids(before), taken.condition_id);
            if i == at {
                assert(after[i] == taken);
                assert(skipped_at::<Q>(batch[n - 1], now) is None);
            } else {
                assert(after[i] == before[i]);
                law_scan_tracks_nothing_else(markets, batch, now, n - 1, i);
            }
        } else {
            law_scan_tracks_nothing_else(markets, batch, now, n - 1, i);
        }
    }
}

/// A market stays tracked as it was read until the same condition is read again.
pub proof fn law_read_market_stays_as_read<Q: Quantity>(
    markets: Seq<MarketView<Q>>,
    batch: Seq<GammaMarket>,
    now: Timestamp,
    k: int,
    n: int,
)
    requires
        0 <= k < n <= batch.len(),
        skipped_at::<Q>(batch[k], now) is None,
        forall|j: int|
            k < j < n && skipped_at::<Q>(#[trigger] batch[j], now) is None
                ==> batch[j].condition_id.unwrap()@ != batch[k].condition_id.unwrap()@,
    ensures
        after_scan(markets, batch, now, n).contains(
            tracked_from(batch[k], reading_of(batch[k]), now),
        ),
    decreases n,
{
    let before = after_scan(markets, batch, now, n - 1);
    let after = after_scan(markets, batch, now, n);
    let kept = tracked_from::<Q>(batch[k], reading_of(batch[k]), now);
    let market = batch[n - 1];
    let taken = tracked_from::<Q>(market, reading_of(market), now);
    let at = seqs::first_at(condition_ids(before), taken.condition_id);
    seqs::lemma_first_at(condition_ids(before), taken.condition_id);
    if k == n - 1 {
        assert(after[at] == kept);
    } else {
        law_read_market_stays_as_read(markets, batch, now, k, n - 1);
        let i = choose|i: int| 0 <= i < before.len() && before[i] == kept;
        if skipped_at::<Q>(market, now) is None {
            assert(batch[n - 1].condition_id.unwrap()@ != batch[k].condition_id.unwrap()@);
            assert(condition_ids(before)[i] == kept.condition_id);
            assert(after[i] == kept);
        }
    }
}

/// A scan gives one reason for each market that it passes over.
pub proof fn law_each_skip_has_a_reason<Q: Quantity>(
    batch: Seq<GammaMarket>,
    now: Timestamp,
    n: int,
)
    requires
        0 <= n <= batch.len(),
    ensures
        scan_skips::<Q>(batch, now, n).len() == batch.take(n).filter(
            |m: GammaMarket| skipped_at::<Q>(m, now) is Some,
        ).len(),
    decreases n,
{
    let skipped = |m: GammaMarket| skipped_at::<Q>(m, now) is Some;
    if n > 0 {
        law_each_skip_has_a_reason::<Q>(batch, now, n - 1);
        seqs::lemma_filter_next(batch, skipped, n - 1);
    } else {
        reveal(Seq::filter);
        assert(batch.take(0) =~= Seq::empty());
    }
}

/// New prices reach the outcome with their token, where no other has it: it gets
/// all three, its market the time, and everything else stays as it is.
pub proof fn law_new_prices_reach_their_outcome<Q>(
    markets: Seq<MarketView<Q>>,
    token: Seq<char>,
    ask_price: Q,
    ask_size: Q,
    bid_price: Q,
    now: Timestamp,
    m: int,
    o: int,
)
    requires
        0 <= m < markets.len(),
        0 <= o < markets[m].outcomes.len(),
        markets[m].outcomes[o].token_id == token,
        forall|i: int, j: int|
            #![trigger markets[i].outcomes[j]]
            0 <= i < markets.len() && 0 <= j < markets[i].outcomes.len() && (i, j) != (m, o)
                ==> markets[i].outcomes[j].token_id != token,
    ensures
        ({
            let after = repriced(markets, token, ask_price, ask_size, bid_price, now);
            &&& after.len() == markets.len()
            &&& after[m].outcomes.len() == markets[m].outcomes.len()
            &&& after[m].outcomes[o].ask_price == ask_price
            &&& after[m].outcomes[o].ask_size == ask_size
            &&& after[m].outcomes[o].bid_price == bid_price
            &&& after[m].outcomes[o].token_id == token
            &&& after[m].outcomes[o].name == markets[m].outcomes[o].name
            &&& after[m].last_updated == now
            &&& after[m].volume_usd == markets[m].volume_usd
            &&& after[m].question == markets[m].question
            &&& forall|i: int| 0 <= i < markets.len() && i != m ==> #[trigger] after[i] == markets[i]
            &&& forall|j: int|
                0 <= j < markets[m].outcomes.len() && j != o ==> #[trigger] after[m].outcomes[j]
                    == markets[m].outcomes[j]
        }),
{
    let keys = tokens_of(markets[m].outcomes);
    assert forall|j: int| 0 <= j < o implies #[trigger] keys[j] != token by {
        assert(markets[m].outcomes[j].token_id != token);
    }
    seqs::lemma_is_first_at(keys, token, o);
    assert forall|i: int| 0 <= i < m implies !has_token(#[trigger] markets[i], token) by {
        let others = tokens_of(markets[i].outcomes);
        assert forall|j: int| 0 <= j < others.len() implies #[trigger] others[j] != token by {
            assert(markets[i].outcomes[j].token_id != token);
        }
        seqs::lemma_is_first_at(others, token, others.len() as int);
    }
    lemma_market_with_token(markets, token, m);
}

/// Prices for a token that no outcome has change nothing.
pub proof fn law_unknown_token_changes_nothing<Q>(
    markets: Seq<MarketView<Q>>,
    token: Seq<char>,
    ask_price: Q,
    ask_size: Q,
    bid_price: Q,
    now: Timestamp,
)
    requires
        forall|i: int, j: int|
            #![trigger markets[i].outcomes[j]]
            0 <= i < markets.len() && 0 <= j < markets[i].outcomes.len()
                ==> markets[i].outcomes[j].token_id != token,
    ensures
        repriced(markets, token, ask_price, ask_size, bid_price, now) == markets,
{
    assert forall|i: int| 0 <= i < markets.len() implies !has_token(#[trigger] markets[i], token) by {
        let others = tokens_of(markets[i].outcomes);
        assert forall|j: int| 0 <= j < others.len() implies #[trigger] others[j] != token by {
            assert(markets[i].outcomes[j].token_id != token);
        }
        seqs::lemma_is_first_at(others, token, others.len() as int);
    }
    lemma_market_with_token(markets, token, markets.len() as int);
}

/// The counts are those of the markets with two outcomes, with others, of a day's
/// age, of each category, and with some profit.
pub proof fn law_stats_count_the_markets<Q: Quantity>(
    stats: ScannerStats,
    markets: Seq<MarketView<Q>>,
)
    requires
        counts(stats, markets),
    ensures
        stats.binary_markets == markets.filter(|m: MarketView<Q>| m.outcomes.len() == 2).len(),
        stats.multi_outcome_markets == markets.filter(
            |m: MarketView<Q>| m.outcomes.len() != 2,
        ).len(),
        stats.new_markets == markets.filter(|m: MarketView<Q>| m.is_new).len(),
        stats.sports_markets == markets.filter(|m: MarketView<Q>| m.category is Sports).len(),
        stats.politics_markets == markets.filter(|m: MarketView<Q>| m.category is Politics).len(),
        stats.crypto_markets == markets.filter(|m: MarketView<Q>| m.category is Crypto).len(),
        stats.entertainment_markets == markets.filter(
            |m: MarketView<Q>| m.category is Entertainment,
        ).len(),
        stats.other_markets == markets.filter(
            |m: MarketView<Q>|
                m.category is Science || m.category is Business || m.category is Other,
        ).len(),
        stats.arb_candidates == markets.filter(|m: MarketView<Q>| profit_cents(m) > 0).len(),
{
    let f1 = |m: MarketView<Q>| m.outcomes.len() == 2;
    let f2 = |m: MarketView<Q>| m.outcomes.len() != 2;
    let f3 = |m: MarketView<Q>| m.is_new;
    let f4 = |m: MarketView<Q>| m.category is Sports;
    let f5 = |m: MarketView<Q>| m.category is Politics;
    let f6 = |m: MarketView<Q>| m.category is Crypto;
    let f7 = |m: MarketView<Q>| m.category is Entertainment;
    let f8 = |m: MarketView<Q>|
        m.category is Science || m.category is Business || m.category is Other;
    let f9 = |m: MarketView<Q>| profit_cents(m) > 0;
    assert(binary::<Q>() =~= f1);
    assert(multi::<Q>() =~= f2);
    assert(recent::<Q>() =~= f3);
    assert(of_category::<Q>(MarketCategory::Sports) =~= f4);
    assert(of_category::<Q>(MarketCategory::Politics) =~= f5);
    assert(of_category::<Q>(MarketCategory::Crypto) =~= f6);
    assert(of_category::<Q>(MarketCategory::Entertainment) =~= f7);
    assert(of_other_category::<Q>() =~= f8);
    assert(earning::<Q>(1) =~= f9);
    seqs::law_count_is_of_those_that_pass(markets, f1);
    seqs::law_count_is_of_those_that_pass(markets, f2);
    seqs::law_count_is_of_those_that_pass(markets, f3);
    seqs::law_count_is_of_those_that_pass(markets, f4);
    seqs::law_count_is_of_those_that_pass(markets, f5);
    seqs::law_count_is_of_those_that_pass(markets, f6);
    seqs::law_count_is_of_those_that_pass(markets, f7);
    seqs::law_count_is_of_those_that_pass(markets, f8);
    seqs::law_count_is_of_those_that_pass(markets, f9);
}

/// A market is a candidate exactly where its outcomes cost, to the nearest cent,
/// at least so much less than a dollar.
pub proof fn law_candidates_earn_enough(market: MarketView<Decimal>, min_profit_cents: int)
    requires
        min_profit_cents > 0,
        forall|i: int|
            0 <= i < market.outcomes.len() ==> (#[trigger] market.outcomes[i]).ask_price.units >= 0,
    ensures
        earning::<Decimal>(min_profit_cents)(market) <==> total_units(asks(market)) <= 1_000_000
            - min_profit_cents * 10_000 + 5_000,
        recent::<Decimal>()(market) <==> market.is_new,
{
    law_profit_is_a_dollar_less_the_cost(market);
}

/// The smallest ask size is offered by some outcome and undercut by none.
pub proof fn law_smallest_is_undercut_by_none(numbers: Seq<Decimal>)
    ensures
        forall|i: int| 0 <= i < numbers.len() ==> smallest(numbers).units <= (
        #[trigger] numbers[i]).units,
        numbers.len() > 0 ==> numbers.contains(smallest(numbers)),
    decreases numbers.len(),
{
    if numbers.len() > 0 {
        let front = numbers.drop_last();
        law_smallest_is_undercut_by_none(front);
        assert forall|i: int| 0 <= i < numbers.len() implies smallest(numbers).units <= (
        #[trigger] numbers[i]).units by {
            if i < front.len() {
                assert(smallest(front).units <= front[i].units);
            }
        }
        let last = numbers.len() - 1;
        if front.len() == 0 || smallest(numbers) == numbers[last] {
            assert(smallest(numbers).units == numbers[last].units);
            assert(numbers[last] == smallest(numbers));
        } else {
            let i = choose|i: int| 0 <= i < front.len() && front[i] == smallest(front);
            assert(numbers[i] == smallest(numbers));
        }
    }
}

/// The tokens of all markets are those of their outcomes, and no others.
pub proof fn law_all_tokens_are_listed<Q>(markets: Seq<MarketView<Q>>, token: Seq<char>)
    ensures
        all_tokens(markets).contains(token) <==> exists|i: int, j: int|
            0 <= i < markets.len() && 0 <= j < markets[i].outcomes.len()
                && #[trigger] markets[i].outcomes[j].token_id == token,
    decreases markets.len(),
{
    if markets.len() > 0 {
        let front = markets.drop_last();
        let last = markets.last();
        let own = tokens_of(last.outcomes);
        let all = all_tokens(markets);
        law_all_tokens_are_listed(front, token);
        if all.contains(token) {
            let k = choose|k: int| 0 <= k < all.len() && all[k] == token;
            if k < all_tokens(front).len() {
                assert(all_tokens(front)[k] == token);
                let (i, j) = choose|i: int, j: int|
                    0 <= i < front.len() && 0 <= j < front[i].outcomes.len()
                        && #[trigger] front[i].outcomes[j].token_id == token;
                assert(markets[i].outcomes[j].token_id == token);
            } else {
                let j = k - all_tokens(front).len();
                assert(own[j] == token);
                assert(markets[markets.len() - 1].outcomes[j].token_id == token);
            }
        }
        if exists|i: int, j: int|
            0 <= i < markets.len() && 0 <= j < markets[i].outcomes.len()
                && #[trigger] markets[i].outcomes[j].token_id == token {
            let (i, j) = choose|i: int, j: int|
                0 <= i < markets.len() && 0 <= j < markets[i].outcomes.len()
                    && #[trigger] markets[i].outcomes[j].token_id == token;
            if i < front.len() {
                assert(front[i].outcomes[j].token_id == token);
                let k = choose|k: int|
                    0 <= k < all_tokens(front).len() && all_tokens(front)[k] == token;
                assert(all[k] == token);
            } else {
                assert(own[j] == token);
                assert(all[all_tokens(front).len() + j] == token);
            }
        }
    }
}

} // verus!
