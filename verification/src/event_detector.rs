//! Events that often come with an arbitrage opportunity: new markets, volume
//! spikes, price movements, and asks that sum to less than a dollar.

use vstd::prelude::*;
use vstd::string::*;

use crate::config::NEW_MARKET_HOURS;
use crate::market_scanner;
use crate::market_scanner::{Outcome, TrackedMarket};
use crate::quantity::{Decimal, Quantity};
use crate::seqs;
use crate::text;
use crate::timestamp;
use crate::timestamp::Timestamp;

verus! {

/// How many events are kept.
pub const MAX_EVENTS: usize = 1000;

/// Something that may point to an opportunity.
#[derive(Debug)]
pub enum ArbEvent<Q> {
    /// A market was opened a short while ago.
    NewMarket { condition_id: String, question: String, age_hours: i64 },
    /// The volume rose several times over.
    VolumeSpike {
        condition_id: String,
        question: String,
        volume_increase_pct: Q,
        current_volume: Q,
    },
    /// The ask of an outcome moved far.
    PriceMovement {
        condition_id: String,
        question: String,
        outcome_name: String,
        old_price: Q,
        new_price: Q,
        change_pct: Q,
    },
    /// The asks sum to less than a dollar.
    ArbOpportunity {
        condition_id: String,
        question: String,
        sum_of_asks: Q,
        profit_cents: i16,
        outcome_count: usize,
    },
}

impl<Q: Quantity> Clone for ArbEvent<Q> {
    fn clone(&self) -> (r: Self)
        ensures
            r == *self,
    {
        match self {
            ArbEvent::NewMarket { condition_id, question, age_hours } => ArbEvent::NewMarket {
                condition_id: condition_id.clone(),
                question: question.clone(),
                age_hours: *age_hours,
            },
            ArbEvent::VolumeSpike {
                condition_id,
                question,
                volume_increase_pct,
                current_volume,
            } => ArbEvent::VolumeSpike {
                condition_id: condition_id.clone(),
                question: question.clone(),
                volume_increase_pct: *volume_increase_pct,
                current_volume: *current_volume,
            },
            ArbEvent::PriceMovement {
                condition_id,
                question,
                outcome_name,
                old_price,
                new_price,
                change_pct,
            } => ArbEvent::PriceMovement {
                condition_id: condition_id.clone(),
                question: question.clone(),
                outcome_name: outcome_name.clone(),
                old_price: *old_price,
                new_price: *new_price,
                change_pct: *change_pct,
            },
            ArbEvent::ArbOpportunity {
                condition_id,
                question,
                sum_of_asks,
                profit_cents,
                outcome_count,
            } => ArbEvent::ArbOpportunity {
                condition_id: condition_id.clone(),
                question: question.clone(),
                sum_of_asks: *sum_of_asks,
                profit_cents: *profit_cents,
                outcome_count: *outcome_count,
            },
        }
    }
}

/// What was last seen of a market.
#[derive(Debug)]
pub struct MarketHistory<Q> {
    pub condition_id: String,
    pub last_volume: Q,
    /// Token and ask of each outcome.
    pub last_prices: Vec<(String, Q)>,
    pub last_sum_of_asks: Q,
    pub last_updated: Timestamp,
}

/// The price last noted for a token. Where a token stands twice, the later
/// entry counts.
pub open spec fn noted_price<Q>(prices: Seq<(String, Q)>, token: Seq<char>) -> Option<Q>
    decreases prices.len(),
{
    if prices.len() == 0 {
        None
    } else if prices.last().0@ == token {
        Some(prices.last().1)
    } else {
        noted_price(prices.drop_last(), token)
    }
}

impl<Q: Quantity> MarketHistory<Q> {
    fn price_of(&self, token: &str) -> (r: Option<Q>)
        ensures
            r == noted_price(self.last_prices@, token@),
    {
        let mut i: usize = self.last_prices.len();
        assert(self.last_prices@.take(i as int) =~= self.last_prices@);
        while i > 0
            invariant
                i <= self.last_prices.len(),
                noted_price(self.last_prices@, token@) == noted_price(
                    self.last_prices@.take(i as int),
                    token@,
                ),
            decreases i,
        {
            assert(self.last_prices@.take(i as int).drop_last() =~= self.last_prices@.take(i - 1));
            i = i - 1;
            if text::same(self.last_prices[i].0.as_str(), token) {
                return Some(self.last_prices[i].1);
            }
        }
        None
    }
}

/// The tokens and asks of some outcomes.
pub open spec fn prices_of<Q>(outcomes: Seq<Outcome<Q>>) -> Seq<(String, Q)> {
    outcomes.map_values(|o: Outcome<Q>| (o.token_id, o.ask_price))
}

/// Whether `seen` is what is noted of a market at `now`.
pub open spec fn notes<Q: Quantity>(
    seen: MarketHistory<Q>,
    market: TrackedMarket<Q>,
    now: Timestamp,
) -> bool {
    &&& seen.condition_id == market.condition_id
    &&& seen.last_volume == market.volume_usd
    &&& seen.last_prices@ == prices_of(market.outcomes@)
    &&& seen.last_sum_of_asks == market_scanner::sum_up(market_scanner::asks(market@))
    &&& seen.last_updated == now
}

/// The event for a market that is less than a day old.
pub open spec fn new_market_event<Q: Quantity>(market: TrackedMarket<Q>, now: Timestamp) -> Option<
    ArbEvent<Q>,
> {
    match market.created_at {
        Some(created) => {
            let age = timestamp::hours_between(now, created);
            if market.is_new && 0 <= age < NEW_MARKET_HOURS {
                Some(
                    ArbEvent::NewMarket {
                        condition_id: market.condition_id,
                        question: market.question,
                        age_hours: age as i64,
                    },
                )
            } else {
                None
            }
        },
        None => None,
    }
}

/// The event for a volume that rose to `threshold` times what it was, or more.
pub open spec fn volume_event<Q: Quantity>(
    market: TrackedMarket<Q>,
    last_volume: Q,
    threshold: Q,
) -> Option<ArbEvent<Q>> {
    let increase = market.volume_usd.over_spec(last_volume);
    if !last_volume.at_most_spec(Q::zero_spec()) && threshold.at_most_spec(increase) {
        Some(
            ArbEvent::VolumeSpike {
                condition_id: market.condition_id,
                question: market.question,
                volume_increase_pct: increase.minus_spec(Q::from_int_spec(1)).times_spec(
                    Q::from_int_spec(100),
                ),
                current_volume: market.volume_usd,
            },
        )
    } else {
        None
    }
}

/// The event for an ask that moved by `threshold` of what it was, or more.
pub open spec fn price_event<Q: Quantity>(
    market: TrackedMarket<Q>,
    outcome: Outcome<Q>,
    last_prices: Seq<(String, Q)>,
    threshold: Q,
) -> Option<ArbEvent<Q>> {
    match noted_price(last_prices, outcome.token_id@) {
        Some(old_price) => {
            let change = outcome.ask_price.minus_spec(old_price).magnitude_spec().over_spec(
                old_price,
            );
            if !old_price.at_most_spec(Q::zero_spec()) && threshold.at_most_spec(change) {
                Some(
                    ArbEvent::PriceMovement {
                        condition_id: market.condition_id,
                        question: market.question,
                        outcome_name: outcome.name,
                        old_price,
                        new_price: outcome.ask_price,
                        change_pct: change.times_spec(Q::from_int_spec(100)),
                    },
                )
            } else {
                None
            }
        },
        None => None,
    }
}

/// The event for asks that sum to less than a dollar.
pub open spec fn arb_event<Q: Quantity>(market: TrackedMarket<Q>) -> Option<ArbEvent<Q>> {
    let profit = market_scanner::profit_cents(market@);
    if profit > 0 {
        Some(
            ArbEvent::ArbOpportunity {
                condition_id: market.condition_id,
                question: market.question,
                sum_of_asks: market_scanner::sum_up(market_scanner::asks(market@)),
                profit_cents: profit as i16,
                outcome_count: market.outcomes.len(),
            },
        )
    } else {
        None
    }
}

/// The events with one more, where there is one.
pub open spec fn with_event<Q>(events: Seq<ArbEvent<Q>>, event: Option<ArbEvent<Q>>) -> Seq<
    ArbEvent<Q>,
> {
    match event {
        Some(e) => events.push(e),
        None => events,
    }
}

/// The price events of the first `n` outcomes.
pub open spec fn price_events<Q: Quantity>(
    market: TrackedMarket<Q>,
    last_prices: Seq<(String, Q)>,
    threshold: Q,
    n: int,
) -> Seq<ArbEvent<Q>>
    decreases n,
{
    if n <= 0 {
        Seq::empty()
    } else {
        with_event(
            price_events(market, last_prices, threshold, n - 1),
            price_event(market, market.outcomes@[n - 1], last_prices, threshold),
        )
    }
}

/// The events of a market, given what was last seen of it.
pub open spec fn events_of<Q: Quantity>(
    market: TrackedMarket<Q>,
    seen: Option<MarketHistory<Q>>,
    volume_threshold: Q,
    price_threshold: Q,
    now: Timestamp,
) -> Seq<ArbEvent<Q>> {
    let opened = with_event(Seq::empty(), new_market_event(market, now));
    let changed = match seen {
        Some(prev) => with_event(
            opened,
            volume_event(market, prev.last_volume, volume_threshold),
        ) + price_events(
            market,
            prev.last_prices@,
            price_threshold,
            market.outcomes.len() as int,
        ),
        None => opened,
    };
    with_event(changed, arb_event(market))
}

/// The conditions of some notes.
pub open spec fn noted_ids<Q>(history: Seq<MarketHistory<Q>>) -> Seq<Seq<char>> {
    history.map_values(|h: MarketHistory<Q>| h.condition_id@)
}

/// What was last seen of a market.
pub open spec fn last_seen<Q>(history: Seq<MarketHistory<Q>>, condition_id: Seq<char>) -> Option<
    MarketHistory<Q>,
> {
    let at = seqs::first_at(noted_ids(history), condition_id);
    if at < history.len() {
        Some(history[at])
    } else {
        None
    }
}

/// Events with the time at which they were found.
pub open spec fn stamped<Q>(events: Seq<ArbEvent<Q>>, now: Timestamp) -> Seq<
    (Timestamp, ArbEvent<Q>),
> {
    events.map_values(|e: ArbEvent<Q>| (now, e))
}

/// The last `most` items.
pub open spec fn latest<A>(items: Seq<A>, most: int) -> Seq<A> {
    if items.len() > most {
        items.skip(items.len() - most)
    } else {
        items
    }
}

/// The test for events of arbitrage.
pub open spec fn of_arbitrage<Q>() -> spec_fn((Timestamp, ArbEvent<Q>)) -> bool {
    |e: (Timestamp, ArbEvent<Q>)| e.1 is ArbOpportunity
}

/// The test for events of new markets.
pub open spec fn of_new_markets<Q>() -> spec_fn((Timestamp, ArbEvent<Q>)) -> bool {
    |e: (Timestamp, ArbEvent<Q>)| e.1 is NewMarket
}

/// The test for events of rising volume.
pub open spec fn of_volume<Q>() -> spec_fn((Timestamp, ArbEvent<Q>)) -> bool {
    |e: (Timestamp, ArbEvent<Q>)| e.1 is VolumeSpike
}

/// The test for events of moving prices.
pub open spec fn of_prices<Q>() -> spec_fn((Timestamp, ArbEvent<Q>)) -> bool {
    |e: (Timestamp, ArbEvent<Q>)| e.1 is PriceMovement
}

/// The usual thresholds for volumes and prices.
pub open spec fn usual_thresholds<Q: Quantity>() -> (Q, Q) {
    (Q::from_int_spec(5), Q::ratio_spec(10, 100))
}

/// Finds events, and keeps the latest of them.
pub struct EventDetector<Q> {
    /// What was last seen of each market; no condition stands twice.
    pub history: Vec<MarketHistory<Q>>,
    /// From how many times the last volume on a rise is an event.
    pub volume_spike_threshold: Q,
    /// From what part of the last price on a movement is an event.
    pub price_movement_threshold: Q,
    /// The latest events, oldest first.
    pub events: Vec<(Timestamp, ArbEvent<Q>)>,
    pub max_events: usize,
}

impl<Q: Quantity> EventDetector<Q> {
    /// No condition is noted twice, and no more events are kept than allowed.
    pub open spec fn wf(self) -> bool {
        &&& seqs::distinct(noted_ids(self.history@))
        &&& self.events.len() <= self.max_events
    }

    /// The events that a market gives rise to at `now`.
    pub open spec fn detected(self, market: TrackedMarket<Q>, now: Timestamp) -> Seq<ArbEvent<Q>> {
        events_of(
            market,
            last_seen(self.history@, market.condition_id@),
            self.volume_spike_threshold,
            self.price_movement_threshold,
            now,
        )
    }

    /// A detector for volumes that rise to five times what they were and prices
    /// that move by a tenth.
    pub fn new() -> (r: Self)
        ensures
            r.wf(),
            r.history@ == Seq::<MarketHistory<Q>>::empty(),
            r.events@ == Seq::<(Timestamp, ArbEvent<Q>)>::empty(),
            (r.volume_spike_threshold, r.price_movement_threshold) == usual_thresholds::<Q>(),
            r.volume_spike_threshold == Q::from_int_spec(5),
            r.price_movement_threshold == Q::ratio_spec(10, 100),
            r.max_events == MAX_EVENTS,
    {
        EventDetector::with_thresholds(Q::from_int(5), Q::ratio(10, 100))
    }

    /// A detector with the given thresholds.
    pub fn with_thresholds(volume_spike: Q, price_movement: Q) -> (r: Self)
        ensures
            r.wf(),
            r.history@ == Seq::<MarketHistory<Q>>::empty(),
            r.events@ == Seq::<(Timestamp, ArbEvent<Q>)>::empty(),
            r.volume_spike_threshold == volume_spike,
            r.price_movement_threshold == price_movement,
            r.max_events == MAX_EVENTS,
    {
        EventDetector {
            history: Vec::new(),
            volume_spike_threshold: volume_spike,
            price_movement_threshold: price_movement,
            events: Vec::new(),
            max_events: MAX_EVENTS,
        }
    }

    fn check_new_market(&self, market: &TrackedMarket<Q>, now: Timestamp) -> (r: Option<
        ArbEvent<Q>,
    >)
        ensures
            r == new_market_event(*market, now),
    {
        if !market.is_new {
            return None;
        }
        match market.created_at {
            Some(created) => {
                let age_hours: i64 = timestamp::num_hours(now, created);
                if age_hours >= 0 && age_hours < NEW_MARKET_HOURS as i64 {
                    Some(
                        ArbEvent::NewMarket {
                            condition_id: market.condition_id.clone(),
                            question: market.question.clone(),
                            age_hours,
                        },
                    )
                } else {
                    None
                }
            },
            None => None,
        }
    }

    fn check_volume_spike(&self, market: &TrackedMarket<Q>, prev: &MarketHistory<Q>) -> (r: Option<
        ArbEvent<Q>,
    >)
        ensures
            r == volume_event(*market, prev.last_volume, self.volume_spike_threshold),
    {
        if prev.last_volume.at_most(Q::zero()) {
            return None;
        }
        let increase: Q = market.volume_usd.over(prev.last_volume);
        if self.volume_spike_threshold.at_most(increase) {
            Some(
                ArbEvent::VolumeSpike {
                    condition_id: market.condition_id.clone(),
                    question: market.question.clone(),
                    volume_increase_pct: increase.minus(Q::from_int(1)).times(Q::from_int(100)),
                    current_volume: market.volume_usd,
                },
            )
        } else {
            None
        }
    }

    fn check_price_movement(
        &self,
        market: &TrackedMarket<Q>,
        outcome: &Outcome<Q>,
        prev: &MarketHistory<Q>,
    ) -> (r: Option<ArbEvent<Q>>)
        ensures
            r == price_event(*market, *outcome, prev.last_prices@, self.price_movement_threshold),
    {
        let old_price: Q = match prev.price_of(outcome.token_id.as_str()) {
            Some(price) => price,
            None => {
                return None;
            },
        };
        if old_price.at_most(Q::zero()) {
            return None;
        }
        let change: Q = outcome.ask_price.minus(old_price).magnitude().over(old_price);
        if self.price_movement_threshold.at_most(change) {
            Some(
                ArbEvent::PriceMovement {
                    condition_id: market.condition_id.clone(),
                    question: market.question.clone(),
                    outcome_name: outcome.name.clone(),
                    old_price,
                    new_price: outcome.ask_price,
                    change_pct: change.times(Q::from_int(100)),
                },
            )
        } else {
            None
        }
    }

    fn check_arb_opportunity(&self, market: &TrackedMarket<Q>) -> (r: Option<ArbEvent<Q>>)
        ensures
            r == arb_event(*market),
    {
        let profit: i16 = market.potential_profit_cents();
        if profit > 0 {
            Some(
                ArbEvent::ArbOpportunity {
                    condition_id: market.condition_id.clone(),
                    question: market.question.clone(),
                    sum_of_asks: market.sum_of_asks(),
                    profit_cents: profit,
                    outcome_count: market.outcomes.len(),
                },
            )
        } else {
            None
        }
    }

    fn find(&self, condition_id: &str) -> (r: usize)
        ensures
            r == seqs::first_at(noted_ids(self.history@), condition_id@),
            r <= self.history.len(),
    {
        let ghost keys = noted_ids(self.history@);
        let mut i: usize = 0;
        while i < self.history.len()
            invariant
                keys == noted_ids(self.history@),
                i <= self.history.len(),
                forall|j: int| 0 <= j < i ==> #[trigger] keys[j] != condition_id@,
            decreases self.history.len() - i,
        {
            if text::same(self.history[i].condition_id.as_str(), condition_id) {
                proof {
                    seqs::lemma_is_first_at(keys, condition_id@, i as int);
                }
                return i;
            }
            assert(keys[i as int] != condition_id@);
            i = i + 1;
        }
        proof {
            seqs::lemma_is_first_at(keys, condition_id@, i as int);
        }
        i
    }

    fn detect(&self, market: &TrackedMarket<Q>, now: Timestamp) -> (r: Vec<ArbEvent<Q>>)
        ensures
            r@ == self.detected(*market, now),
    {
        let mut found: Vec<ArbEvent<Q>> = Vec::new();
        match self.check_new_market(market, now) {
            Some(event) => found.push(event),
            None => {},
        }
        let at: usize = self.find(market.condition_id.as_str());
        if at < self.history.len() {
            let prev = &self.history[at];
            match self.check_volume_spike(market, prev) {
                Some(event) => found.push(event),
                None => {},
            }
            let ghost before = found@;
            let mut i: usize = 0;
            assert(found@ =~= before + Seq::<ArbEvent<Q>>::empty());
            while i < market.outcomes.len()
                invariant
                    i <= market.outcomes.len(),
                    found@ == before + price_events(
                        *market,
                        prev.last_prices@,
                        self.price_movement_threshold,
                        i as int,
                    ),
                decreases market.outcomes.len() - i,
            {
                match self.check_price_movement(market, &market.outcomes[i], prev) {
                    Some(event) => {
                        found.push(event);
                    },
                    None => {},
                }
                i = i + 1;
                assert(found@ =~= before + price_events(
                    *market,
                    prev.last_prices@,
                    self.price_movement_threshold,
                    i as int,
                ));
            }
        }
        match self.check_arb_opportunity(market) {
            Some(event) => found.push(event),
            None => {},
        }
        found
    }

    fn note(&self, market: &TrackedMarket<Q>, now: Timestamp) -> (r: MarketHistory<Q>)
        ensures
            notes(r, *market, now),
    {
        let mut last_prices: Vec<(String, Q)> = Vec::new();
        let mut i: usize = 0;
        while i < market.outcomes.len()
            invariant
                i <= market.outcomes.len(),
                last_prices@ == prices_of(market.outcomes@).take(i as int),
            decreases market.outcomes.len() - i,
        {
            last_prices.push((market.outcomes[i].token_id.clone(), market.outcomes[i].ask_price));
            i = i + 1;
        }
        assert(last_prices@ =~= prices_of(market.outcomes@));
        MarketHistory {
            condition_id: market.condition_id.clone(),
            last_volume: market.volume_usd,
            last_prices,
            last_sum_of_asks: market.sum_of_asks(),
            last_updated: now,
        }
    }

    fn log(&mut self, found: &Vec<ArbEvent<Q>>, now: Timestamp)
        ensures
            final(self).events@ == latest(
                old(self).events@ + stamped(found@, now),
                old(self).max_events as int,
            ),
            final(self).history == old(self).history,
            final(self).volume_spike_threshold == old(self).volume_spike_threshold,
            final(self).price_movement_threshold == old(self).price_movement_threshold,
            final(self).max_events == old(self).max_events,
    {
        let ghost before = self.events@;
        let mut i: usize = 0;
        assert(before + stamped(found@, now).take(0) =~= before);
        while i < found.len()
            invariant
                i <= found.len(),
                before == old(self).events@,
                self.events@ == before + stamped(found@, now).take(i as int),
                self.history == old(self).history,
                self.volume_spike_threshold == old(self).volume_spike_threshold,
                self.price_movement_threshold == old(self).price_movement_threshold,
                self.max_events == old(self).max_events,
            decreases found.len() - i,
        {
            self.events.push((now, found[i].clone()));
            i = i + 1;
            assert(self.events@ =~= before + stamped(found@, now).take(i as int));
        }
        assert(stamped(found@, now).take(i as int) =~= stamped(found@, now));
        if self.events.len() > self.max_events {
            let extra: usize = self.events.len() - self.max_events;
            let kept: Vec<(Timestamp, ArbEvent<Q>)> = self.events.split_off(extra);
            self.events = kept;
        }
    }

    /// Looks at a market, notes what it saw of it, and logs the events.
    pub fn process_market(&mut self, market: &TrackedMarket<Q>, now: Timestamp) -> (r: Vec<
        ArbEvent<Q>,
    >)
        requires
            old(self).wf(),
        ensures
            final(self).wf(),
            r@ == old(self).detected(*market, now),
            final(self).events@ == latest(
                old(self).events@ + stamped(r@, now),
                old(self).max_events as int,
            ),
            exists|seen: MarketHistory<Q>| #[trigger]
                notes(seen, *market, now) && final(self).history@ == seqs::put(
                    old(self).history@,
                    noted_ids(old(self).history@),
                    market.condition_id@,
                    seen,
                ),
            final(self).volume_spike_threshold == old(self).volume_spike_threshold,
            final(self).price_movement_threshold == old(self).price_movement_threshold,
            final(self).max_events == old(self).max_events,
    {
        let found: Vec<ArbEvent<Q>> = self.detect(market, now);
        let at: usize = self.find(market.condition_id.as_str());
        let seen: MarketHistory<Q> = self.note(market, now);
        let ghost keys = noted_ids(self.history@);
        proof {
            seqs::lemma_put(self.history@, keys, market.condition_id@, seen);
        }
        let ghost after = seqs::put(self.history@, keys, market.condition_id@, seen);
        if at < self.history.len() {
            self.history.set(at, seen);
        } else {
            self.history.push(seen);
        }
        assert(self.history@ =~= after);
        assert(noted_ids(after) =~= seqs::put(
            keys,
            keys,
            market.condition_id@,
            market.condition_id@,
        ));
        self.log(&found, now);
        found
    }

    /// The latest events, newest first, at most `limit` of them.
    pub fn get_recent_events(&self, limit: usize) -> (r: Vec<&(Timestamp, ArbEvent<Q>)>)
        ensures
            r@.unref() == self.events@.reverse().take(if limit < self.events.len() {
                limit as int
            } else {
                self.events.len() as int
            }),
    {
        let mut recent: Vec<&(Timestamp, ArbEvent<Q>)> = Vec::new();
        let mut i: usize = 0;
        while i < limit && i < self.events.len()
            invariant
                i <= limit,
                i <= self.events.len(),
                recent@.unref() == self.events@.reverse().take(i as int),
            decreases self.events.len() - i,
        {
            let ghost was = recent@.unref();
            let event = &self.events[self.events.len() - 1 - i];
            recent.push(event);
            assert(self.events@.reverse()[i as int] == *event);
            assert(recent@.unref() =~= was.push(*event));
            i = i + 1;
            assert(self.events@.reverse().take(i as int) =~= was.push(*event));
        }
        recent
    }

    /// The events of arbitrage.
    pub fn get_arb_events(&self) -> (r: Vec<&(Timestamp, ArbEvent<Q>)>)
        ensures
            r@.unref() == self.events@.filter(of_arbitrage()),
    {
        let ghost keep = of_arbitrage::<Q>();
        let mut found: Vec<&(Timestamp, ArbEvent<Q>)> = Vec::new();
        let mut i: usize = 0;
        proof {
            reveal(Seq::filter);
            assert(self.events@.take(0) =~= Seq::empty());
        }
        while i < self.events.len()
            invariant
                keep == of_arbitrage::<Q>(),
                i <= self.events.len(),
                found@.unref() == self.events@.take(i as int).filter(keep),
            decreases self.events.len() - i,
        {
            proof {
                seqs::lemma_filter_next(self.events@, keep, i as int);
            }
            let event = &self.events[i];
            match &event.1 {
                ArbEvent::ArbOpportunity { .. } => {
                    found.push(event);
                },
                _ => {},
            }
            i = i + 1;
        }
        assert(self.events@.take(i as int) =~= self.events@);
        found
    }

    /// The events of new markets.
    pub fn get_new_market_events(&self) -> (r: Vec<&(Timestamp, ArbEvent<Q>)>)
        ensures
            r@.unref() == self.events@.filter(of_new_markets()),
    {
        let ghost keep = of_new_markets::<Q>();
        let mut found: Vec<&(Timestamp, ArbEvent<Q>)> = Vec::new();
        let mut i: usize = 0;
        proof {
            reveal(Seq::filter);
            assert(self.events@.take(0) =~= Seq::empty());
        }
        while i < self.events.len()
            invariant
                keep == of_new_markets::<Q>(),
                i <= self.events.len(),
                found@.unref() == self.events@.take(i as int).filter(keep),
            decreases self.events.len() - i,
        {
            proof {
                seqs::lemma_filter_next(self.events@, keep, i as int);
            }
            let event = &self.events[i];
            match &event.1 {
                ArbEvent::NewMarket { .. } => {
                    found.push(event);
                },
                _ => {},
            }
            i = i + 1;
        }
        assert(self.events@.take(i as int) =~= self.events@);
        found
    }

    /// Forgets all markets and all events.
    pub fn clear_history(&mut self)
        ensures
            final(self).wf(),
            final(self).history@ == Seq::<MarketHistory<Q>>::empty(),
            final(self).events@ == Seq::<(Timestamp, ArbEvent<Q>)>::empty(),
            final(self).volume_spike_threshold == old(self).volume_spike_threshold,
            final(self).price_movement_threshold == old(self).price_movement_threshold,
            final(self).max_events == old(self).max_events,
    {
        self.history = Vec::new();
        self.events = Vec::new();
    }

    /// How many events of each kind are kept.
    pub fn event_counts(&self) -> (r: EventCounts)
        ensures
            counts(r, self.events@),
    {
        let mut counts = EventCounts::default();
        let mut i: usize = 0;
        assert(self.events@.take(0) =~= Seq::empty());
        while i < self.events.len()
            invariant
                i <= self.events.len(),
                self::counts(counts, self.events@.take(i as int)),
            decreases self.events.len() - i,
        {
            proof {
                let all = self.events@;
                seqs::lemma_count_next(all, of_new_markets(), i as int);
                seqs::lemma_count_next(all, of_volume(), i as int);
                seqs::lemma_count_next(all, of_prices(), i as int);
                seqs::lemma_count_next(all, of_arbitrage(), i as int);
            }
            match &self.events[i].1 {
                ArbEvent::NewMarket { .. } => {
                    counts.new_markets = counts.new_markets + 1;
                },
                ArbEvent::VolumeSpike { .. } => {
                    counts.volume_spikes = counts.volume_spikes + 1;
                },
                ArbEvent::PriceMovement { .. } => {
                    counts.price_movements = counts.price_movements + 1;
                },
                ArbEvent::ArbOpportunity { .. } => {
                    counts.arb_opportunities = counts.arb_opportunities + 1;
                },
            }
            i = i + 1;
        }
        assert(self.events@.take(i as int) =~= self.events@);
        counts
    }
}

impl<Q: Quantity> Default for EventDetector<Q> {
    fn default() -> (r: Self)
        ensures
            r.wf(),
            r.history@ == Seq::<MarketHistory<Q>>::empty(),
            r.events@ == Seq::<(Timestamp, ArbEvent<Q>)>::empty(),
            (r.volume_spike_threshold, r.price_movement_threshold) == usual_thresholds::<Q>(),
            r.volume_spike_threshold == Q::from_int_spec(5),
            r.price_movement_threshold == Q::ratio_spec(10, 100),
            r.max_events == MAX_EVENTS,
    {
        EventDetector::new()
    }
}

/// How many events there are of each kind.
#[derive(Clone, Copy, Debug, PartialEq, Eq, Structural)]
pub struct EventCounts {
    pub new_markets: usize,
    pub volume_spikes: usize,
    pub price_movements: usize,
    pub arb_opportunities: usize,
}

/// Whether these are the counts of some events.
pub open spec fn counts<Q>(counts: EventCounts, events: Seq<(Timestamp, ArbEvent<Q>)>) -> bool {
    &&& counts.new_markets == seqs::count(events, of_new_markets())
    &&& counts.volume_spikes == seqs::count(events, of_volume())
    &&& counts.price_movements == seqs::count(events, of_prices())
    &&& counts.arb_opportunities == seqs::count(events, of_arbitrage())
}

impl Default for EventCounts {
    fn default() -> (r: Self)
        ensures
            r == (EventCounts {
                new_markets: 0,
                volume_spikes: 0,
                price_movements: 0,
                arb_opportunities: 0,
            }),
    {
        EventCounts {
            new_markets: 0,
            volume_spikes: 0,
            price_movements: 0,
            arb_opportunities: 0,
        }
    }
}

/// What the counts say.
pub open spec fn counts_text(counts: EventCounts) -> Seq<char> {
    "Events: "@ + text::decimal_text(counts.new_markets as nat) + " new markets, "@
        + text::decimal_text(counts.volume_spikes as nat) + " volume spikes, "@
        + text::decimal_text(counts.price_movements as nat) + " price moves, "@
        + text::decimal_text(counts.arb_opportunities as nat) + " arbs"@
}

impl EventCounts {
    /// The counts in one line.
    pub fn to_text(&self) -> (r: String)
        ensures
            r@ == counts_text(*self),
    {
        let mut s: String = "Events: ".to_string();
        s.append(text::decimal(self.new_markets as u64).as_str());
        s.append(" new markets, ");
        s.append(text::decimal(self.volume_spikes as u64).as_str());
        s.append(" volume spikes, ");
        s.append(text::decimal(self.price_movements as u64).as_str());
        s.append(" price moves, ");
        s.append(text::decimal(self.arb_opportunities as u64).as_str());
        s.append(" arbs");
        s
    }
}

/// A market seen for the first time gives no event of change: neither of its
/// volume nor of its prices.
pub proof fn law_first_sight_shows_no_change<Q: Quantity>(
    detector: EventDetector<Q>,
    market: TrackedMarket<Q>,
    now: Timestamp,
    i: int,
)
    requires
        last_seen(detector.history@, market.condition_id@) is None,
        0 <= i < detector.detected(market, now).len(),
    ensures
        detector.detected(market, now)[i] is NewMarket || detector.detected(
            market,
            now,
        )[i] is ArbOpportunity,
{
}

/// What is noted of a market is what its next update is held against, and
/// nothing that was noted of another market changes.
pub proof fn law_notes_are_remembered<Q: Quantity>(
    history: Seq<MarketHistory<Q>>,
    market: TrackedMarket<Q>,
    seen: MarketHistory<Q>,
    now: Timestamp,
    other: Seq<char>,
)
    requires
        seqs::distinct(noted_ids(history)),
        notes(seen, market, now),
        other != market.condition_id@,
    ensures
        ({
            let after = seqs::put(history, noted_ids(history), market.condition_id@, seen);
            &&& last_seen(after, market.condition_id@) == Some(seen)
            &&& last_seen(after, other) == last_seen(history, other)
        }),
{
    let id = market.condition_id@;
    let keys = noted_ids(history);
    let after = seqs::put(history, keys, id, seen);
    seqs::lemma_put(history, keys, id, seen);
    seqs::lemma_first_at(keys, id);
    seqs::lemma_first_at(keys, other);
    assert(noted_ids(after) =~= seqs::put(keys, keys, id, id));
    let new_keys = seqs::put(keys, keys, id, id);
    assert(seqs::first_at(new_keys, other) >= 0);
}

/// An event of arbitrage is found exactly where buying every outcome brings a
/// profit of a cent or more.
pub proof fn law_arbitrage_event_means_profit<Q: Quantity>(
    detector: EventDetector<Q>,
    market: TrackedMarket<Q>,
    now: Timestamp,
)
    ensures
        (market_scanner::profit_cents(market@) > 0) == (detector.detected(market, now).len() > 0
            && detector.detected(market, now).last() is ArbOpportunity),
{
    let seen = last_seen(detector.history@, market.condition_id@);
    if seen is Some {
        lemma_price_events(
            market,
            seen.unwrap().last_prices@,
            detector.price_movement_threshold,
            market.outcomes.len() as int,
        );
    }
}

proof fn lemma_price_events<Q: Quantity>(
    market: TrackedMarket<Q>,
    last_prices: Seq<(String, Q)>,
    threshold: Q,
    n: int,
)
    ensures
        forall|i: int|
            0 <= i < price_events(market, last_prices, threshold, n).len() ==> #[trigger]
            price_events(market, last_prices, threshold, n)[i] is PriceMovement,
    decreases n,
{
    if n > 0 {
        lemma_price_events(market, last_prices, threshold, n - 1);
    }
}

/// The price noted last for a token is the one that counts, and notes for other
/// tokens do not matter.
pub proof fn law_last_note_counts<Q>(prices: Seq<(String, Q)>, note: (String, Q), token: Seq<char>)
    ensures
        noted_price(prices.push(note), note.0@) == Some(note.1),
        token != note.0@ ==> noted_price(prices.push(note), token) == noted_price(prices, token),
        noted_price(Seq::<(String, Q)>::empty(), token) is None,
{
    assert(prices.push(note).drop_last() =~= prices);
}

/// A market gives an event of its opening exactly in the first 24 hours, where it
/// is known when it began and it is marked as new.
pub proof fn law_new_market_event_in_the_first_day<Q: Quantity>(
    market: TrackedMarket<Q>,
    now: Timestamp,
)
    ensures
        new_market_event(market, now) is Some <==> {
            &&& market.is_new
            &&& market.created_at matches Some(created) && 0 <= timestamp::hours_between(
                now,
                created,
            ) < 24
        },
        new_market_event(market, now) matches Some(event) ==> (event matches ArbEvent::NewMarket {
            condition_id,
            question,
            age_hours,
        } && condition_id == market.condition_id && question == market.question && age_hours
            == timestamp::hours_between(now, market.created_at.unwrap())),
{
}

/// A volume gives an event exactly where there was some before and it is at least
/// the threshold times that.
pub proof fn law_volume_event_where_it_multiplied(
    market: TrackedMarket<Decimal>,
    last_volume: Decimal,
    threshold: Decimal,
)
    requires
        0 <= market.volume_usd.units <= 1_000_000_000_000_000,
        0 < last_volume.units ==> market.volume_usd.units <= 1_000_000 * last_volume.units,
        threshold.units >= 0,
    ensures
        volume_event(market, last_volume, threshold) is Some <==> last_volume.units > 0
            && market.volume_usd.units * 1_000_000 >= threshold.units * last_volume.units,
        volume_event(market, last_volume, threshold) matches Some(event) ==> (
        event matches ArbEvent::VolumeSpike {
            condition_id,
            question,
            volume_increase_pct,
            current_volume,
        } && condition_id == market.condition_id && question == market.question && current_volume
            == market.volume_usd && volume_increase_pct.units * last_volume.units
            <= (market.volume_usd.units - last_volume.units) * 100_000_000 < (
        volume_increase_pct.units + 100) * last_volume.units),
{
    let v = market.volume_usd.units as int;
    let l = last_volume.units as int;
    let t = threshold.units as int;
    if l > 0 {
        let q = (v * 1_000_000) / l;
        assert(q * l <= v * 1_000_000 < (q + 1) * l && 0 <= q <= 1_000_000_000_000) by (nonlinear_arith)
            requires
                q == (v * 1_000_000) / l,
                0 <= v <= 1_000_000 * l,
                l > 0,
        ;
        assert(q >= t <==> v * 1_000_000 >= t * l) by (nonlinear_arith)
            requires
                q * l <= v * 1_000_000 < (q + 1) * l,
                l > 0,
        ;
        let increase = market.volume_usd.over_spec(last_volume);
        assert(increase.units == q);
        let one = Decimal::from_int_spec(1);
        let hundred = Decimal::from_int_spec(100);
        assert(one.units == 1_000_000);
        assert(hundred.units == 100_000_000);
        let over = increase.minus_spec(one);
        assert(over.units == q - 1_000_000);
        assert(over.units * hundred.units == (q - 1_000_000) * 100_000_000);
        let pct = over.times_spec(hundred);
        assert(pct.units == (q - 1_000_000) * 100);
        assert(((q - 1_000_000) * 100) * l <= (v - l) * 100_000_000 < ((q - 1_000_000) * 100 + 100)
            * l) by (nonlinear_arith)
            requires
                q * l <= v * 1_000_000 < (q + 1) * l,
                l > 0,
        ;
    }
}

/// A price gives an event exactly where one was noted before and it moved, up or
/// down, by at least the threshold of that.
pub proof fn law_price_event_where_it_moved(
    market: TrackedMarket<Decimal>,
    outcome: Outcome<Decimal>,
    last_prices: Seq<(String, Decimal)>,
    threshold: Decimal,
    old_price: Decimal,
)
    requires
        noted_price(last_prices, outcome.token_id@) == Some(old_price),
        0 <= outcome.ask_price.units <= 1_000_000,
        0 <= old_price.units <= 1_000_000,
        threshold.units >= 0,
    ensures
        ({
            let moved = if outcome.ask_price.units >= old_price.units {
                outcome.ask_price.units - old_price.units
            } else {
                old_price.units - outcome.ask_price.units
            };
            let event = price_event(market, outcome, last_prices, threshold);
            &&& event is Some <==> old_price.units > 0 && moved * 1_000_000 >= threshold.units
                * old_price.units
            &&& event matches Some(e) ==> (e matches ArbEvent::PriceMovement {
                condition_id,
                question,
                outcome_name,
                old_price: from,
                new_price,
                change_pct,
            } && condition_id == market.condition_id && question == market.question && outcome_name
                == outcome.name && from == old_price && new_price == outcome.ask_price
                && change_pct.units * old_price.units <= moved * 100_000_000 < (change_pct.units
                + 100) * old_price.units)
        }),
{
    let p = old_price.units as int;
    let t = threshold.units as int;
    let moved = if outcome.ask_price.units >= old_price.units {
        outcome.ask_price.units - old_price.units
    } else {
        old_price.units - outcome.ask_price.units
    };
    let size = outcome.ask_price.minus_spec(old_price).magnitude_spec();
    assert(size.units == moved);
    if p > 0 {
        let q = (moved * 1_000_000) / p;
        assert(q * p <= moved * 1_000_000 < (q + 1) * p && 0 <= q <= 1_000_000_000_000)
            by (nonlinear_arith)
            requires
                q == (moved * 1_000_000) / p,
                0 <= moved <= 1_000_000,
                p > 0,
        ;
        assert(q >= t <==> moved * 1_000_000 >= t * p) by (nonlinear_arith)
            requires
                q * p <= moved * 1_000_000 < (q + 1) * p,
                p > 0,
        ;
        let change = size.over_spec(old_price);
        assert(change.units == q);
        let hundred = Decimal::from_int_spec(100);
        assert(hundred.units == 100_000_000);
        assert(change.units * hundred.units == q * 100_000_000);
        assert(change.times_spec(hundred).units == q * 100);
        assert((q * 100) * p <= moved * 100_000_000 < (q * 100 + 100) * p) by (nonlinear_arith)
            requires
                q * p <= moved * 1_000_000 < (q + 1) * p,
                p > 0,
        ;
    }
}

/// A token without a noted price gives no event of movement.
pub proof fn law_first_price_is_no_movement<Q: Quantity>(
    market: TrackedMarket<Q>,
    outcome: Outcome<Q>,
    last_prices: Seq<(String, Q)>,
    threshold: Q,
)
    requires
        noted_price(last_prices, outcome.token_id@) is None,
    ensures
        price_event(market, outcome, last_prices, threshold) is None,
{
}

/// An event of arbitrage tells the market, its number of outcomes and its profit.
pub proof fn law_arbitrage_event_tells_the_profit<Q: Quantity>(market: TrackedMarket<Q>)
    requires
        0 < market_scanner::profit_cents(market@) <= i16::MAX,
    ensures
        arb_event(market) matches Some(event) && (event matches ArbEvent::ArbOpportunity {
            condition_id,
            question,
            sum_of_asks,
            profit_cents,
            outcome_count,
        } && condition_id == market.condition_id && question == market.question && sum_of_asks
            == market_scanner::sum_up(market_scanner::asks(market@)) && profit_cents
            == market_scanner::profit_cents(market@) && outcome_count == market.outcomes.len()),
{
}

proof fn lemma_price_events_are_found<Q: Quantity>(
    market: TrackedMarket<Q>,
    last_prices: Seq<(String, Q)>,
    threshold: Q,
    n: int,
    event: ArbEvent<Q>,
)
    requires
        0 <= n <= market.outcomes.len(),
    ensures
        price_events(market, last_prices, threshold, n).contains(event) <==> exists|i: int|
            0 <= i < n && price_event(
                market,
                #[trigger] market.outcomes@[i],
                last_prices,
                threshold,
            ) == Some(event),
    decreases n,
{
    if n > 0 {
        let before = price_events(market, last_prices, threshold, n - 1);
        let after = price_events(market, last_prices, threshold, n);
        let last = price_event(market, market.outcomes@[n - 1], last_prices, threshold);
        lemma_price_events_are_found(market, last_prices, threshold, n - 1, event);
        if after.contains(event) {
            let k = choose|k: int| 0 <= k < after.len() && after[k] == event;
            if k < before.len() {
                assert(before[k] == event);
            } else {
                assert(last == Some(event));
            }
        }
        if before.contains(event) {
            let k = choose|k: int| 0 <= k < before.len() && before[k] == event;
            assert(after[k] == event);
        }
        if last == Some(event) {
            assert(after[before.len() as int] == event);
        }
    }
}

/// All events of a market are found, and no others: that of its opening, that of
/// arbitrage and, where it was seen before, that of its volume and those of its
/// prices.
pub proof fn law_all_events_are_found<Q: Quantity>(
    market: TrackedMarket<Q>,
    seen: Option<MarketHistory<Q>>,
    volume_threshold: Q,
    price_threshold: Q,
    now: Timestamp,
    event: ArbEvent<Q>,
)
    ensures
        events_of(market, seen, volume_threshold, price_threshold, now).contains(event) <==> {
            ||| new_market_event(market, now) == Some(event)
            ||| arb_event(market) == Some(event)
            ||| seen is Some && volume_event(market, seen.unwrap().last_volume, volume_threshold)
                == Some(event)
            ||| seen is Some && exists|i: int|
                0 <= i < market.outcomes.len() && price_event(
                    market,
                    #[trigger] market.outcomes@[i],
                    seen.unwrap().last_prices@,
                    price_threshold,
                ) == Some(event)
        },
{
    let opened = with_event(Seq::empty(), new_market_event(market, now));
    let all = events_of(market, seen, volume_threshold, price_threshold, now);
    let n = market.outcomes.len() as int;
    let (front, moves) = match seen {
        Some(prev) => (
            with_event(opened, volume_event(market, prev.last_volume, volume_threshold)),
            price_events(market, prev.last_prices@, price_threshold, n),
        ),
        None => (opened, Seq::empty()),
    };
    if seen is Some {
        lemma_price_events_are_found(
            market,
            seen.unwrap().last_prices@,
            price_threshold,
            n,
            event,
        );
    }
    let changed = front + moves;
    assert(all =~= with_event(changed, arb_event(market)));
    if all.contains(event) {
        let k = choose|k: int| 0 <= k < all.len() && all[k] == event;
        if k < front.len() {
            assert(front[k] == event);
        } else if k < changed.len() {
            assert(moves[k - front.len()] == event);
        }
    }
    if new_market_event(market, now) == Some(event) {
        assert(all[0] == event);
    }
    if arb_event(market) == Some(event) {
        assert(all[all.len() - 1] == event);
    }
    if seen is Some && volume_event(market, seen.unwrap().last_volume, volume_threshold) == Some(
        event,
    ) {
        assert(all[front.len() - 1] == event);
    }
    if moves.contains(event) {
        let k = choose|k: int| 0 <= k < moves.len() && moves[k] == event;
        assert(all[front.len() + k] == event);
    }
}

/// The latest items are the last ones, in order, and no more than allowed.
pub proof fn law_latest_are_the_last<A>(items: Seq<A>, most: int, i: int)
    requires
        0 <= most,
        0 <= i < latest(items, most).len(),
    ensures
        latest(items, most).len() <= most,
        latest(items, most).len() == items.len() || latest(items, most).len() == most,
        latest(items, most)[i] == items[items.len() - latest(items, most).len() + i],
{
}

/// What is noted of a market is its volume, the ask of each outcome and their
/// sum.
pub proof fn law_notes_hold_volume_and_prices<Q: Quantity>(
    seen: MarketHistory<Q>,
    market: TrackedMarket<Q>,
    now: Timestamp,
    i: int,
)
    requires
        notes(seen, market, now),
        0 <= i < market.outcomes.len(),
    ensures
        seen.condition_id == market.condition_id,
        seen.last_volume == market.volume_usd,
        seen.last_prices.len() == market.outcomes.len(),
        seen.last_prices@[i].0 == market.outcomes@[i].token_id,
        seen.last_prices@[i].1 == market.outcomes@[i].ask_price,
        seen.last_updated == now,
{
    assert(seen.last_prices@.len() == prices_of(market.outcomes@).len());
    assert(prices_of(market.outcomes@)[i] == (
        market.outcomes@[i].token_id,
        market.outcomes@[i].ask_price,
    ));
}

/// Every event is logged with the time at which it was found, in order.
pub proof fn law_events_are_stamped<Q>(events: Seq<ArbEvent<Q>>, now: Timestamp, i: int)
    requires
        0 <= i < events.len(),
    ensures
        stamped(events, now).len() == events.len(),
        stamped(events, now)[i].0 == now,
        stamped(events, now)[i].1 == events[i],
{
}

/// The log keeps the new events, as far as there is room for them at all, and
/// drops the oldest first.
pub proof fn law_new_events_are_kept<Q>(
    log: Seq<(Timestamp, ArbEvent<Q>)>,
    events: Seq<ArbEvent<Q>>,
    now: Timestamp,
    most: int,
    i: int,
)
    requires
        events.len() <= most,
        0 <= i < events.len(),
    ensures
        latest(log + stamped(events, now), most).contains((now, events[i])),
{
    let all = log + stamped(events, now);
    let kept = latest(all, most);
    let k = kept.len() - events.len() + i;
    assert(all[log.len() + i] == (now, events[i]));
    assert(kept[k] == all[all.len() - kept.len() + k]);
}

/// Usually a volume is an event from five times what it was on, and a price from
/// a tenth of what it was on.
pub proof fn law_usual_thresholds(
    market: TrackedMarket<Decimal>,
    last_volume: Decimal,
    outcome: Outcome<Decimal>,
    last_prices: Seq<(String, Decimal)>,
    old_price: Decimal,
)
    requires
        0 <= market.volume_usd.units <= 1_000_000_000_000_000,
        0 < last_volume.units,
        market.volume_usd.units <= 1_000_000 * last_volume.units,
        noted_price(last_prices, outcome.token_id@) == Some(old_price),
        0 <= outcome.ask_price.units <= 1_000_000,
        0 < old_price.units <= 1_000_000,
    ensures
        volume_event(market, last_volume, usual_thresholds::<Decimal>().0) is Some
            <==> market.volume_usd.units >= 5 * last_volume.units,
        price_event(market, outcome, last_prices, usual_thresholds::<Decimal>().1) is Some <==> 10 * (
        outcome.ask_price.units - old_price.units) >= old_price.units || 10 * (old_price.units
            - outcome.ask_price.units) >= old_price.units,
{
    let (volume, price) = usual_thresholds::<Decimal>();
    assert(volume.units == 5_000_000);
    assert(price.units == 100_000);
    law_volume_event_where_it_multiplied(market, last_volume, volume);
    law_price_event_where_it_moved(market, outcome, last_prices, price, old_price);
}

/// The counts are those of the logged events of each kind.
pub proof fn law_counts_are_of_each_kind<Q>(
    counted: EventCounts,
    events: Seq<(Timestamp, ArbEvent<Q>)>,
)
    requires
        counts(counted, events),
    ensures
        counted.new_markets == events.filter(
            |e: (Timestamp, ArbEvent<Q>)| e.1 is NewMarket,
        ).len(),
        counted.volume_spikes == events.filter(
            |e: (Timestamp, ArbEvent<Q>)| e.1 is VolumeSpike,
        ).len(),
        counted.price_movements == events.filter(
            |e: (Timestamp, ArbEvent<Q>)| e.1 is PriceMovement,
        ).len(),
        counted.arb_opportunities == events.filter(
            |e: (Timestamp, ArbEvent<Q>)| e.1 is ArbOpportunity,
        ).len(),
{
    let f1 = |e: (Timestamp, ArbEvent<Q>)| e.1 is NewMarket;
    let f2 = |e: (Timestamp, ArbEvent<Q>)| e.1 is VolumeSpike;
    let f3 = |e: (Timestamp, ArbEvent<Q>)| e.1 is PriceMovement;
    let f4 = |e: (Timestamp, ArbEvent<Q>)| e.1 is ArbOpportunity;
    assert(of_new_markets::<Q>() =~= f1);
    assert(of_volume::<Q>() =~= f2);
    assert(of_prices::<Q>() =~= f3);
    assert(of_arbitrage::<Q>() =~= f4);
    seqs::law_count_is_of_those_that_pass(events, f1);
    seqs::law_count_is_of_those_that_pass(events, f2);
    seqs::law_count_is_of_those_that_pass(events, f3);
    seqs::law_count_is_of_those_that_pass(events, f4);
}

} // verus!
