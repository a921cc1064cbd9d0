//! Positions: what was bought in each market, what it cost, and what it pays.

use vstd::prelude::*;
use vstd::string::*;

use crate::market_scanner;
use crate::quantity::{Decimal, Quantity};
use crate::seqs;
use crate::text;
use crate::timestamp;
use crate::timestamp::Timestamp;

verus! {

/// How many fills are gathered before they are entered at once.
pub const FILL_BATCH: usize = 16;

/// Milliseconds after which gathered fills are entered in any case.
pub const FILL_INTERVAL_MS: u64 = 100;

// ---------------------------------------------------------------------------
// One outcome
// ---------------------------------------------------------------------------

/// What is held of an outcome.
#[derive(Debug)]
pub struct OutcomePosition<Q> {
    pub outcome_name: String,
    pub token_id: String,
    pub contracts: Q,
    /// What the contracts cost, in dollars.
    pub cost_basis: Q,
    /// What a contract cost on average, in dollars.
    pub avg_price: Q,
}

/// What is held of an outcome, with texts as sequences.
#[verifier::ext_equal]
pub struct OutcomeHolding<Q> {
    pub outcome_name: Seq<char>,
    pub token_id: Seq<char>,
    pub contracts: Q,
    pub cost_basis: Q,
    pub avg_price: Q,
}

impl<Q> View for OutcomePosition<Q> {
    type V = OutcomeHolding<Q>;

    open spec fn view(&self) -> OutcomeHolding<Q> {
        OutcomeHolding {
            outcome_name: self.outcome_name@,
            token_id: self.token_id@,
            contracts: self.contracts,
            cost_basis: self.cost_basis,
            avg_price: self.avg_price,
        }
    }
}

/// Nothing of an outcome.
pub open spec fn nothing_of<Q: Quantity>(outcome_name: Seq<char>, token_id: Seq<char>) -> OutcomeHolding<
    Q,
> {
    OutcomeHolding {
        outcome_name,
        token_id,
        contracts: Q::zero_spec(),
        cost_basis: Q::zero_spec(),
        avg_price: Q::zero_spec(),
    }
}

/// A holding with more contracts, bought at a price. The average stays where no
/// contracts are held.
pub open spec fn added<Q: Quantity>(
    holding: OutcomeHolding<Q>,
    contracts: Q,
    price: Q,
) -> OutcomeHolding<Q> {
    let cost = holding.cost_basis.plus_spec(contracts.times_spec(price));
    let held = holding.contracts.plus_spec(contracts);
    OutcomeHolding {
        contracts: held,
        cost_basis: cost,
        avg_price: if Q::zero_spec().below_spec(held) {
            cost.over_spec(held)
        } else {
            holding.avg_price
        },
        ..holding
    }
}

impl<Q: Quantity> OutcomePosition<Q> {
    /// Nothing of an outcome.
    pub fn new(outcome_name: &str, token_id: &str) -> (r: Self)
        ensures
            r@ == nothing_of::<Q>(outcome_name@, token_id@),
    {
        OutcomePosition {
            outcome_name: outcome_name.to_string(),
            token_id: token_id.to_string(),
            contracts: Q::zero(),
            cost_basis: Q::zero(),
            avg_price: Q::zero(),
        }
    }

    /// Enters contracts bought at a price.
    pub fn add(&mut self, contracts: Q, price: Q)
        ensures
            final(self)@ == added(old(self)@, contracts, price),
    {
        let new_cost: Q = contracts.times(price);
        self.cost_basis = self.cost_basis.plus(new_cost);
        self.contracts = self.contracts.plus(contracts);
        if Q::zero().below(self.contracts) {
            self.avg_price = self.cost_basis.over(self.contracts);
        }
    }

    /// What the contracts pay if the outcome wins: a dollar each.
    pub fn value_if_win(&self) -> (r: Q)
        ensures
            r == self@.contracts,
    {
        self.contracts
    }

    /// The profit if the outcome wins.
    pub fn profit_if_win(&self) -> (r: Q)
        ensures
            r == self@.contracts.minus_spec(self@.cost_basis),
    {
        self.value_if_win().minus(self.cost_basis)
    }
}

// ---------------------------------------------------------------------------
// One market
// ---------------------------------------------------------------------------

/// What is held in a market.
#[derive(Debug)]
pub struct MarketPosition<Q> {
    pub condition_id: String,
    pub description: String,
    pub outcomes: Vec<OutcomePosition<Q>>,
    pub total_fees: Q,
    /// When the first contracts were bought, in RFC 3339.
    pub opened_at: String,
    /// "open", "closed" or "resolved".
    pub status: String,
    /// Profit or loss, once the market is resolved.
    pub realized_pnl: Option<Q>,
}

/// What is held in a market, with texts and lists as sequences.
#[verifier::ext_equal]
pub struct MarketHolding<Q> {
    pub condition_id: Seq<char>,
    pub description: Seq<char>,
    pub outcomes: Seq<OutcomeHolding<Q>>,
    pub total_fees: Q,
    pub opened_at: Seq<char>,
    pub status: Seq<char>,
    pub realized_pnl: Option<Q>,
}

/// The holdings of some outcomes.
pub open spec fn outcome_holdings<Q>(outcomes: Seq<OutcomePosition<Q>>) -> Seq<OutcomeHolding<Q>> {
    outcomes.map_values(|o: OutcomePosition<Q>| o@)
}

impl<Q> View for MarketPosition<Q> {
    type V = MarketHolding<Q>;

    open spec fn view(&self) -> MarketHolding<Q> {
        MarketHolding {
            condition_id: self.condition_id@,
            description: self.description@,
            outcomes: outcome_holdings(self.outcomes@),
            total_fees: self.total_fees,
            opened_at: self.opened_at@,
            status: self.status@,
            realized_pnl: self.realized_pnl,
        }
    }
}

/// A market in which nothing is held yet, opened at `now`.
pub open spec fn opened<Q: Quantity>(
    condition_id: Seq<char>,
    description: Seq<char>,
    now: Timestamp,
) -> MarketHolding<Q> {
    MarketHolding {
        condition_id,
        description,
        outcomes: Seq::empty(),
        total_fees: Q::zero_spec(),
        opened_at: timestamp::utc_rfc3339(now.secs, now.nanos),
        status: "open"@,
        realized_pnl: None,
    }
}

/// What the outcomes of a market cost.
pub open spec fn cost_bases<Q: Quantity>(holding: MarketHolding<Q>) -> Seq<Q> {
    holding.outcomes.map_values(|o: OutcomeHolding<Q>| o.cost_basis)
}

/// The contracts of the outcomes of a market.
pub open spec fn contract_counts<Q: Quantity>(holding: MarketHolding<Q>) -> Seq<Q> {
    holding.outcomes.map_values(|o: OutcomeHolding<Q>| o.contracts)
}

/// What a market cost, with fees.
pub open spec fn cost_of<Q: Quantity>(holding: MarketHolding<Q>) -> Q {
    market_scanner::sum_up(cost_bases(holding)).plus_spec(holding.total_fees)
}

/// The contracts that are held of every outcome.
pub open spec fn matched_in<Q: Quantity>(holding: MarketHolding<Q>) -> Q {
    market_scanner::smallest(contract_counts(holding))
}

/// The profit of a market whatever outcome wins: a dollar for each matched
/// contract, less the cost.
pub open spec fn guaranteed<Q: Quantity>(holding: MarketHolding<Q>) -> Q {
    matched_in(holding).minus_spec(cost_of(holding))
}

/// A market after the outcome at a place won. A place that is none pays nothing.
pub open spec fn resolved<Q: Quantity>(holding: MarketHolding<Q>, winner: int) -> MarketHolding<Q> {
    let payout = if winner < holding.outcomes.len() {
        holding.outcomes[winner].contracts
    } else {
        Q::zero_spec()
    };
    MarketHolding {
        realized_pnl: Some(payout.minus_spec(cost_of(holding))),
        status: "resolved"@,
        ..holding
    }
}

/// The tokens of some holdings.
pub open spec fn held_tokens<Q>(outcomes: Seq<OutcomeHolding<Q>>) -> Seq<Seq<char>> {
    outcomes.map_values(|o: OutcomeHolding<Q>| o.token_id)
}

/// A market after a fill: its contracts go to the outcome with its token, which
/// is added where it is not there, and its fees to the fees.
pub open spec fn after_fill<Q: Quantity>(holding: MarketHolding<Q>, fill: FillRecord<Q>) -> MarketHolding<
    Q,
> {
    let tokens = held_tokens(holding.outcomes);
    let token = fill.token_id@;
    let at = seqs::first_at(tokens, token);
    let held = if at < tokens.len() {
        holding.outcomes[at]
    } else {
        nothing_of(fill.outcome_name@, token)
    };
    MarketHolding {
        outcomes: seqs::put(
            holding.outcomes,
            tokens,
            token,
            added(held, fill.contracts, fill.price),
        ),
        total_fees: holding.total_fees.plus_spec(fill.fees),
        ..holding
    }
}

impl<Q: Quantity> MarketPosition<Q> {
    /// A market in which nothing is held yet.
    pub fn new(condition_id: &str, description: &str, outcome_count: usize, now: Timestamp) -> (r:
        Self)
        requires
            now.in_calendar(),
        ensures
            r@ == opened::<Q>(condition_id@, description@, now),
    {
        let position = MarketPosition {
            condition_id: condition_id.to_string(),
            description: description.to_string(),
            outcomes: Vec::with_capacity(outcome_count),
            total_fees: Q::zero(),
            opened_at: timestamp::rfc3339_text(now),
            status: "open".to_string(),
            realized_pnl: None,
        };
        assert(position@.outcomes =~= Seq::empty());
        position
    }

    /// What the market cost, with fees.
    pub fn total_cost(&self) -> (r: Q)
        ensures
            r == cost_of(self@),
    {
        let ghost bases = cost_bases(self@);
        let mut sum: Q = Q::zero();
        let mut i: usize = 0;
        assert(bases.take(0) =~= Seq::empty());
        while i < self.outcomes.len()
            invariant
                bases == cost_bases(self@),
                i <= self.outcomes.len(),
                sum == market_scanner::sum_up(bases.take(i as int)),
            decreases self.outcomes.len() - i,
        {
            assert(bases.take(i + 1).drop_last() =~= bases.take(i as int));
            sum = sum.plus(self.outcomes[i].cost_basis);
            i = i + 1;
        }
        assert(bases.take(i as int) =~= bases);
        sum.plus(self.total_fees)
    }

    /// The contracts of all outcomes together.
    pub fn total_contracts(&self) -> (r: Q)
        ensures
            r == market_scanner::sum_up(contract_counts(self@)),
    {
        let ghost counts = contract_counts(self@);
        let mut sum: Q = Q::zero();
        let mut i: usize = 0;
        assert(counts.take(0) =~= Seq::empty());
        while i < self.outcomes.len()
            invariant
                counts == contract_counts(self@),
                i <= self.outcomes.len(),
                sum == market_scanner::sum_up(counts.take(i as int)),
            decreases self.outcomes.len() - i,
        {
            assert(counts.take(i + 1).drop_last() =~= counts.take(i as int));
            sum = sum.plus(self.outcomes[i].contracts);
            i = i + 1;
        }
        assert(counts.take(i as int) =~= counts);
        sum
    }

    /// The contracts that are held of every outcome; the largest number of all
    /// where there is no outcome.
    pub fn matched_contracts(&self) -> (r: Q)
        ensures
            r == matched_in(self@),
    {
        let ghost counts = contract_counts(self@);
        let mut low: Q = Q::highest();
        let mut i: usize = 0;
        assert(counts.take(0) =~= Seq::empty());
        while i < self.outcomes.len()
            invariant
                counts == contract_counts(self@),
                i <= self.outcomes.len(),
                low == market_scanner::smallest(counts.take(i as int)),
            decreases self.outcomes.len() - i,
        {
            assert(counts.take(i + 1).drop_last() =~= counts.take(i as int));
            low = low.lesser(self.outcomes[i].contracts);
            i = i + 1;
        }
        assert(counts.take(i as int) =~= counts);
        low
    }

    /// The profit whatever outcome wins.
    pub fn guaranteed_profit(&self) -> (r: Q)
        ensures
            r == guaranteed(self@),
    {
        let matched: Q = self.matched_contracts();
        matched.minus(self.total_cost())
    }

    /// Settles the market for the outcome that won.
    pub fn resolve(&mut self, winning_outcome_idx: usize)
        ensures
            final(self)@ == resolved(old(self)@, winning_outcome_idx as int),
    {
        let payout: Q = if winning_outcome_idx < self.outcomes.len() {
            self.outcomes[winning_outcome_idx].contracts
        } else {
            Q::zero()
        };
        let cost: Q = self.total_cost();
        self.realized_pnl = Some(payout.minus(cost));
        self.status = "resolved".to_string();
    }

    fn find(&self, token_id: &str) -> (r: usize)
        ensures
            r == seqs::first_at(held_tokens(self@.outcomes), token_id@),
            r <= self.outcomes.len(),
    {
        let ghost keys = held_tokens(self@.outcomes);
        let mut i: usize = 0;
        while i < self.outcomes.len()
            invariant
                keys == held_tokens(self@.outcomes),
                i <= self.outcomes.len(),
                forall|j: int| 0 <= j < i ==> #[trigger] keys[j] != token_id@,
            decreases self.outcomes.len() - i,
        {
            if text::same(self.outcomes[i].token_id.as_str(), token_id) {
                proof {
                    seqs::lemma_is_first_at(keys, token_id@, i as int);
                }
                return i;
            }
            assert(keys[i as int] != token_id@);
            i = i + 1;
        }
        proof {
            seqs::lemma_is_first_at(keys, token_id@, i as int);
        }
        i
    }

    fn take_fill(&mut self, fill: &FillRecord<Q>)
        ensures
            final(self)@ == after_fill(old(self)@, *fill),
    {
        let ghost before = self@;
        let at: usize = self.find(fill.token_id.as_str());
        if at < self.outcomes.len() {
            self.outcomes[at].add(fill.contracts, fill.price);
        } else {
            let mut outcome: OutcomePosition<Q> = OutcomePosition::new(
                fill.outcome_name.as_str(),
                fill.token_id.as_str(),
            );
            outcome.add(fill.contracts, fill.price);
            self.outcomes.push(outcome);
        }
        assert(self@.outcomes =~= after_fill(before, *fill).outcomes);
        self.total_fees = self.total_fees.plus(fill.fees);
    }
}

// ---------------------------------------------------------------------------
// All markets
// ---------------------------------------------------------------------------

/// Contracts that were bought.
#[derive(Debug)]
pub struct FillRecord<Q> {
    pub condition_id: String,
    pub description: String,
    pub outcome_name: String,
    pub token_id: String,
    pub outcome_count: usize,
    pub contracts: Q,
    /// Dollars for a contract.
    pub price: Q,
    /// Dollars.
    pub fees: Q,
    pub order_id: String,
    /// When they were bought, in RFC 3339.
    pub timestamp: String,
}

impl<Q: Quantity> FillRecord<Q> {
    /// A record of contracts bought at `now`.
    pub fn new(
        condition_id: &str,
        description: &str,
        outcome_name: &str,
        token_id: &str,
        outcome_count: usize,
        contracts: Q,
        price: Q,
        fees: Q,
        order_id: &str,
        now: Timestamp,
    ) -> (r: Self)
        requires
            now.in_calendar(),
        ensures
            r.condition_id@ == condition_id@,
            r.description@ == description@,
            r.outcome_name@ == outcome_name@,
            r.token_id@ == token_id@,
            r.outcome_count == outcome_count,
            r.contracts == contracts,
            r.price == price,
            r.fees == fees,
            r.order_id@ == order_id@,
            r.timestamp@ == timestamp::utc_rfc3339(now.secs, now.nanos),
    {
        FillRecord {
            condition_id: condition_id.to_string(),
            description: description.to_string(),
            outcome_name: outcome_name.to_string(),
            token_id: token_id.to_string(),
            outcome_count,
            contracts,
            price,
            fees,
            order_id: order_id.to_string(),
            timestamp: timestamp::rfc3339_text(now),
        }
    }
}

/// The positions in figures.
#[derive(Debug)]
pub struct PositionSummary<Q> {
    pub total_cost_basis: Q,
    pub total_guaranteed_profit: Q,
    pub realized_pnl: Q,
    pub open_positions: usize,
    pub resolved_positions: usize,
    pub total_contracts: i64,
}

/// The holdings of some markets.
pub open spec fn holdings<Q>(positions: Seq<MarketPosition<Q>>) -> Seq<MarketHolding<Q>> {
    positions.map_values(|p: MarketPosition<Q>| p@)
}

/// The conditions of some holdings.
pub open spec fn held_ids<Q>(holdings: Seq<MarketHolding<Q>>) -> Seq<Seq<char>> {
    holdings.map_values(|h: MarketHolding<Q>| h.condition_id)
}

/// The holdings after a fill at `now`: it goes to the market with its condition,
/// which is opened where it is not there.
pub open spec fn with_fill<Q: Quantity>(
    holdings: Seq<MarketHolding<Q>>,
    fill: FillRecord<Q>,
    now: Timestamp,
) -> Seq<MarketHolding<Q>> {
    let ids = held_ids(holdings);
    let id = fill.condition_id@;
    let at = seqs::first_at(ids, id);
    let holding = if at < ids.len() {
        holdings[at]
    } else {
        opened(id, fill.description@, now)
    };
    seqs::put(holdings, ids, id, after_fill(holding, fill))
}

/// The holdings after the first `n` of some fills, all entered at `now`.
pub open spec fn with_fills<Q: Quantity>(
    holdings: Seq<MarketHolding<Q>>,
    fills: Seq<FillRecord<Q>>,
    now: Timestamp,
    n: int,
) -> Seq<MarketHolding<Q>>
    decreases n,
{
    if n <= 0 {
        holdings
    } else {
        with_fill(with_fills(holdings, fills, now, n - 1), fills[n - 1], now)
    }
}

/// The test for open markets.
pub open spec fn is_open<Q>() -> spec_fn(MarketHolding<Q>) -> bool {
    |h: MarketHolding<Q>| h.status == "open"@
}

/// The test for resolved markets.
pub open spec fn is_resolved<Q>() -> spec_fn(MarketHolding<Q>) -> bool {
    |h: MarketHolding<Q>| h.status == "resolved"@
}

/// What open markets cost together.
pub open spec fn open_cost<Q: Quantity>(holdings: Seq<MarketHolding<Q>>) -> Q
    decreases holdings.len(),
{
    if holdings.len() == 0 {
        Q::zero_spec()
    } else {
        let before = open_cost(holdings.drop_last());
        if is_open()(holdings.last()) {
            before.plus_spec(cost_of(holdings.last()))
        } else {
            before
        }
    }
}

/// The guaranteed profit of open markets together.
pub open spec fn open_profit<Q: Quantity>(holdings: Seq<MarketHolding<Q>>) -> Q
    decreases holdings.len(),
{
    if holdings.len() == 0 {
        Q::zero_spec()
    } else {
        let before = open_profit(holdings.drop_last());
        if is_open()(holdings.last()) {
            before.plus_spec(guaranteed(holdings.last()))
        } else {
            before
        }
    }
}

/// The whole contracts of open markets together.
pub open spec fn open_contracts<Q: Quantity>(holdings: Seq<MarketHolding<Q>>) -> int
    decreases holdings.len(),
{
    if holdings.len() == 0 {
        0
    } else {
        let before = open_contracts(holdings.drop_last());
        if is_open()(holdings.last()) {
            before + market_scanner::sum_up(contract_counts(holdings.last())).truncated_spec(
                i64::MIN as i128,
                i64::MAX as i128,
            )
        } else {
            before
        }
    }
}

/// The profits and losses of resolved markets together.
pub open spec fn resolved_pnl<Q: Quantity>(holdings: Seq<MarketHolding<Q>>) -> Q
    decreases holdings.len(),
{
    if holdings.len() == 0 {
        Q::zero_spec()
    } else {
        let before = resolved_pnl(holdings.drop_last());
        if is_resolved()(holdings.last()) {
            before.plus_spec(
                match holdings.last().realized_pnl {
                    Some(pnl) => pnl,
                    None => Q::zero_spec(),
                },
            )
        } else {
            before
        }
    }
}

/// 64 bits hold the contracts of open markets, however many are counted.
pub open spec fn contracts_fit<Q: Quantity>(holdings: Seq<MarketHolding<Q>>) -> bool {
    forall|n: int|
        0 <= n <= holdings.len() ==> i64::MIN <= open_contracts(#[trigger] holdings.take(n))
            <= i64::MAX
}

/// What was realized on a day, given what was on the day noted.
pub open spec fn daily_pnl_on<Q: Quantity>(noted: Seq<char>, today: Seq<char>, pnl: Q) -> Q {
    if noted == today {
        pnl
    } else {
        Q::zero_spec()
    }
}

/// All positions.
#[derive(Debug)]
pub struct PositionTracker<Q> {
    /// No condition stands twice.
    pub positions: Vec<MarketPosition<Q>>,
    pub daily_realized_pnl: Q,
    /// The day of the daily figures, as "YYYY-MM-DD".
    pub trading_date: String,
    pub all_time_pnl: Q,
}

impl<Q: Quantity> PositionTracker<Q> {
    /// What is held in each market, in the order in which it came.
    pub open spec fn held(self) -> Seq<MarketHolding<Q>> {
        holdings(self.positions@)
    }

    /// No condition is held twice.
    pub open spec fn wf(self) -> bool {
        seqs::distinct(held_ids(self.held()))
    }

    /// No positions.
    pub fn new(now: Timestamp) -> (r: Self)
        requires
            now.in_calendar(),
        ensures
            r.wf(),
            r.held() == Seq::<MarketHolding<Q>>::empty(),
            r.daily_realized_pnl == Q::zero_spec(),
            r.trading_date@ == timestamp::utc_date(now.secs, now.nanos),
            r.all_time_pnl == Q::zero_spec(),
    {
        let tracker = PositionTracker {
            positions: Vec::new(),
            daily_realized_pnl: Q::zero(),
            trading_date: timestamp::date_text(now),
            all_time_pnl: Q::zero(),
        };
        assert(tracker.held() =~= Seq::empty());
        tracker
    }

    /// Begins a new day where the date has changed.
    pub fn roll_day(&mut self, today: &str) -> (r: bool)
        ensures
            r == (old(self).trading_date@ != today@),
            final(self).positions == old(self).positions,
            final(self).all_time_pnl == old(self).all_time_pnl,
            final(self).trading_date@ == today@,
            final(self).daily_realized_pnl == (if r {
                Q::zero_spec()
            } else {
                old(self).daily_realized_pnl
            }),
    {
        if text::same(self.trading_date.as_str(), today) {
            false
        } else {
            self.daily_realized_pnl = Q::zero();
            self.trading_date = today.to_string();
            true
        }
    }

    /// Goes on with kept positions at `now`: the daily figures start anew where
    /// the day has changed.
    pub fn resume(&mut self, now: Timestamp) -> (r: bool)
        requires
            now.in_calendar(),
        ensures
            r == (old(self).trading_date@ != timestamp::utc_date(now.secs, now.nanos)),
            final(self).positions == old(self).positions,
            final(self).all_time_pnl == old(self).all_time_pnl,
            final(self).trading_date@ == timestamp::utc_date(now.secs, now.nanos),
            final(self).daily_realized_pnl == (if r {
                Q::zero_spec()
            } else {
                old(self).daily_realized_pnl
            }),
            final(self).daily_realized_pnl == daily_pnl_on(
                old(self).trading_date@,
                timestamp::utc_date(now.secs, now.nanos),
                old(self).daily_realized_pnl,
            ),
    {
        let today: String = timestamp::date_text(now);
        self.roll_day(today.as_str())
    }

    fn find(&self, condition_id: &str) -> (r: usize)
        ensures
            r == seqs::first_at(held_ids(self.held()), condition_id@),
            r <= self.positions.len(),
    {
        let ghost keys = held_ids(self.held());
        let mut i: usize = 0;
        while i < self.positions.len()
            invariant
                keys == held_ids(self.held()),
                i <= self.positions.len(),
                forall|j: int| 0 <= j < i ==> #[trigger] keys[j] != condition_id@,
            decreases self.positions.len() - i,
        {
            if text::same(self.positions[i].condition_id.as_str(), condition_id) {
                proof {
                    seqs::lemma_is_first_at(keys, condition_id@, i as int);
                }
                return i;
            }
            assert(keys[i as int] != condition_id@);
            i = i + 1;
        }
        proof {
            seqs::lemma_is_first_at(keys, condition_id@, i as int);
        }
        i
    }

    /// Enters a fill.
    pub fn record_fill(&mut self, fill: &FillRecord<Q>, now: Timestamp)
        requires
            old(self).wf(),
            now.in_calendar(),
        ensures
            final(self).wf(),
            final(self).held() == with_fill(old(self).held(), *fill, now),
            final(self).daily_realized_pnl == old(self).daily_realized_pnl,
            final(self).trading_date == old(self).trading_date,
            final(self).all_time_pnl == old(self).all_time_pnl,
    {
        let ghost before = self.held();
        let ghost ids = held_ids(before);
        let ghost id = fill.condition_id@;
        let ghost after = with_fill(before, *fill, now);
        let at: usize = self.find(fill.condition_id.as_str());
        if at < self.positions.len() {
            self.positions[at].take_fill(fill);
        } else {
            let mut position: MarketPosition<Q> = MarketPosition::new(
                fill.condition_id.as_str(),
                fill.description.as_str(),
                fill.outcome_count,
                now,
            );
            position.take_fill(fill);
            self.positions.push(position);
        }
        proof {
            seqs::lemma_first_at(ids, id);
            assert(self.held() =~= after);
            seqs::lemma_put(before, ids, id, after[at as int]);
            assert(held_ids(after) =~= seqs::put(ids, ids, id, id));
        }
    }

    /// What is held in the market with this condition.
    pub fn get(&self, condition_id: &str) -> (r: Option<&MarketPosition<Q>>)
        ensures
            ({
                let at = seqs::first_at(held_ids(self.held()), condition_id@);
                match r {
                    Some(position) => at < self.held().len() && position@ == self.held()[at],
                    None => at == self.held().len(),
                }
            }),
    {
        let at: usize = self.find(condition_id);
        if at < self.positions.len() {
            Some(&self.positions[at])
        } else {
            None
        }
    }

    /// The open positions.
    pub fn open_positions(&self) -> (r: Vec<&MarketPosition<Q>>)
        ensures
            holdings(r@.unref()) == self.held().filter(is_open()),
    {
        let ghost keep = is_open::<Q>();
        let mut found: Vec<&MarketPosition<Q>> = Vec::new();
        let mut i: usize = 0;
        proof {
            reveal(Seq::filter);
            assert(self.held().take(0) =~= Seq::empty());
            assert(holdings(found@.unref()) =~= Seq::empty());
        }
        while i < self.positions.len()
            invariant
                keep == is_open::<Q>(),
                i <= self.positions.len(),
                holdings(found@.unref()) == self.held().take(i as int).filter(keep),
            decreases self.positions.len() - i,
        {
            let position = &self.positions[i];
            proof {
                seqs::lemma_filter_next(self.held(), keep, i as int);
                assert(self.held()[i as int] == position@);
            }
            if text::same(position.status.as_str(), "open") {
                let ghost was = holdings(found@.unref());
                found.push(position);
                assert(holdings(found@.unref()) =~= was.push(position@));
            }
            i = i + 1;
        }
        assert(self.held().take(i as int) =~= self.held());
        found
    }

    /// The positions in figures.
    pub fn summary(&self) -> (r: PositionSummary<Q>)
        requires
            contracts_fit(self.held()),
        ensures
            r.total_cost_basis == open_cost(self.held()),
            r.total_guaranteed_profit == open_profit(self.held()),
            r.realized_pnl == resolved_pnl(self.held()),
            r.open_positions == seqs::count(self.held(), is_open()),
            r.resolved_positions == seqs::count(self.held(), is_resolved()),
            r.total_contracts == open_contracts(self.held()),
    {
        let ghost all = self.held();
        let mut cost: Q = Q::zero();
        let mut profit: Q = Q::zero();
        let mut pnl: Q = Q::zero();
        let mut open: usize = 0;
        let mut resolved: usize = 0;
        let mut contracts: i64 = 0;
        let mut i: usize = 0;
        proof {
            assert(all.take(0) =~= Seq::empty());
            reveal_strlit("open");
            reveal_strlit("resolved");
            assert("open"@.len() != "resolved"@.len());
        }
        while i < self.positions.len()
            invariant
                all == self.held(),
                contracts_fit(all),
                "open"@ != "resolved"@,
                open <= i <= self.positions.len(),
                resolved <= i,
                cost == open_cost(all.take(i as int)),
                profit == open_profit(all.take(i as int)),
                pnl == resolved_pnl(all.take(i as int)),
                open == seqs::count(all.take(i as int), is_open()),
                resolved == seqs::count(all.take(i as int), is_resolved()),
                contracts == open_contracts(all.take(i as int)),
            decreases self.positions.len() - i,
        {
            let position = &self.positions[i];
            proof {
                assert(all[i as int] == position@);
                assert(all.take(i + 1).drop_last() =~= all.take(i as int));
                assert(all.take(i + 1).last() == position@);
                seqs::lemma_count_next(all, is_open(), i as int);
                seqs::lemma_count_next(all, is_resolved(), i as int);
                assert(i64::MIN <= open_contracts(all.take(i + 1)) <= i64::MAX);
            }
            if text::same(position.status.as_str(), "open") {
                open = open + 1;
                cost = cost.plus(position.total_cost());
                profit = profit.plus(position.guaranteed_profit());
                let whole: i64 = position.total_contracts().truncated(
                    i64::MIN as i128,
                    i64::MAX as i128,
                ) as i64;
                contracts = contracts + whole;
            } else if text::same(position.status.as_str(), "resolved") {
                resolved = resolved + 1;
                pnl = pnl.plus(
                    match position.realized_pnl {
                        Some(realized) => realized,
                        None => Q::zero(),
                    },
                );
            }
            i = i + 1;
        }
        assert(all.take(i as int) =~= all);
        PositionSummary {
            total_cost_basis: cost,
            total_guaranteed_profit: profit,
            realized_pnl: pnl,
            open_positions: open,
            resolved_positions: resolved,
            total_contracts: contracts,
        }
    }
}

// ---------------------------------------------------------------------------
// Fills in batches
// ---------------------------------------------------------------------------

/// Fills that wait to be entered.
#[derive(Debug)]
pub struct FillBatch<Q> {
    pub fills: Vec<FillRecord<Q>>,
}

impl<Q: Quantity> FillBatch<Q> {
    /// No fills.
    pub fn new() -> (r: Self)
        ensures
            r.fills@ == Seq::<FillRecord<Q>>::empty(),
    {
        FillBatch { fills: Vec::with_capacity(FILL_BATCH) }
    }

    /// Takes in a fill, and says whether the batch is full.
    pub fn push(&mut self, fill: FillRecord<Q>) -> (r: bool)
        ensures
            final(self).fills@ == old(self).fills@.push(fill),
            r == (final(self).fills.len() >= FILL_BATCH),
    {
        self.fills.push(fill);
        self.fills.len() >= FILL_BATCH
    }

    /// Enters all fills, in the order in which they came.
    pub fn flush(&mut self, tracker: &mut PositionTracker<Q>, now: Timestamp)
        requires
            old(tracker).wf(),
            now.in_calendar(),
        ensures
            final(self).fills@ == Seq::<FillRecord<Q>>::empty(),
            final(tracker).wf(),
            final(tracker).held() == with_fills(
                old(tracker).held(),
                old(self).fills@,
                now,
                old(self).fills.len() as int,
            ),
            final(tracker).daily_realized_pnl == old(tracker).daily_realized_pnl,
            final(tracker).trading_date == old(tracker).trading_date,
            final(tracker).all_time_pnl == old(tracker).all_time_pnl,
    {
        let ghost before = tracker.held();
        let mut i: usize = 0;
        while i < self.fills.len()
            invariant
                i <= self.fills.len(),
                self.fills == old(self).fills,
                before == old(tracker).held(),
                now.in_calendar(),
                tracker.wf(),
                tracker.held() == with_fills(before, self.fills@, now, i as int),
                tracker.daily_realized_pnl == old(tracker).daily_realized_pnl,
                tracker.trading_date == old(tracker).trading_date,
                tracker.all_time_pnl == old(tracker).all_time_pnl,
            decreases self.fills.len() - i,
        {
            tracker.record_fill(&self.fills[i], now);
            i = i + 1;
        }
        self.fills = Vec::new();
    }
}

// ---------------------------------------------------------------------------
// Laws
// ---------------------------------------------------------------------------

/// A fill reaches the market with its condition and no other.
pub proof fn law_fill_reaches_its_market<Q: Quantity>(
    held: Seq<MarketHolding<Q>>,
    fill: FillRecord<Q>,
    now: Timestamp,
    other: Seq<char>,
)
    requires
        seqs::distinct(held_ids(held)),
        other != fill.condition_id@,
        seqs::first_at(held_ids(held), other) < held.len(),
    ensures
        ({
            let after = with_fill(held, fill, now);
            let at = seqs::first_at(held_ids(after), fill.condition_id@);
            let place = seqs::first_at(held_ids(held), other);
            &&& at < after.len()
            &&& after[at].condition_id == fill.condition_id@
            &&& seqs::first_at(held_ids(after), other) == place
            &&& after[place] == held[place]
        }),
{
    let ids = held_ids(held);
    let id = fill.condition_id@;
    let after = with_fill(held, fill, now);
    let at = seqs::first_at(ids, id);
    seqs::lemma_first_at(ids, id);
    seqs::lemma_first_at(ids, other);
    seqs::lemma_put(held, ids, id, after[at]);
    assert(held_ids(after) =~= seqs::put(ids, ids, id, id));
}

/// Within its market, a fill reaches the outcome with its token and no other.
pub proof fn law_fill_reaches_its_outcome<Q: Quantity>(
    holding: MarketHolding<Q>,
    fill: FillRecord<Q>,
    i: int,
)
    requires
        0 <= i < holding.outcomes.len(),
        holding.outcomes[i].token_id != fill.token_id@,
    ensures
        after_fill(holding, fill).outcomes[i] == holding.outcomes[i],
{
    let tokens = held_tokens(holding.outcomes);
    seqs::lemma_first_at(tokens, fill.token_id@);
    assert(tokens[i] == holding.outcomes[i].token_id);
}

/// It does not matter how fills are cut into batches.
pub proof fn law_batches_do_not_matter<Q: Quantity>(
    held: Seq<MarketHolding<Q>>,
    first: Seq<FillRecord<Q>>,
    second: Seq<FillRecord<Q>>,
    now: Timestamp,
    n: int,
)
    requires
        0 <= n <= second.len(),
    ensures
        with_fills(held, first + second, now, first.len() + n) == with_fills(
            with_fills(held, first, now, first.len() as int),
            second,
            now,
            n,
        ),
    decreases n,
{
    if n == 0 {
        lemma_fills_prefix(held, first, second, now, first.len() as int);
    } else {
        law_batches_do_not_matter(held, first, second, now, n - 1);
        assert((first + second)[first.len() + n - 1] == second[n - 1]);
    }
}

proof fn lemma_fills_prefix<Q: Quantity>(
    held: Seq<MarketHolding<Q>>,
    first: Seq<FillRecord<Q>>,
    second: Seq<FillRecord<Q>>,
    now: Timestamp,
    n: int,
)
    requires
        0 <= n <= first.len(),
    ensures
        with_fills(held, first + second, now, n) == with_fills(held, first, now, n),
    decreases n,
{
    if n > 0 {
        lemma_fills_prefix(held, first, second, now, n - 1);
        assert((first + second)[n - 1] == first[n - 1]);
    }
}

/// A resolved market has the winner's contracts as its payout: the profit is
/// that less what the market cost, and nothing else of it changes.
pub proof fn law_resolution_pays_the_winner<Q: Quantity>(holding: MarketHolding<Q>, winner: int)
    requires
        0 <= winner < holding.outcomes.len(),
    ensures
        ({
            let after = resolved(holding, winner);
            &&& after.realized_pnl == Some(
                holding.outcomes[winner].contracts.minus_spec(cost_of(holding)),
            )
            &&& after.outcomes == holding.outcomes
            &&& cost_of(after) == cost_of(holding)
            &&& is_resolved()(after) && !is_open()(after)
        }),
{
    reveal_strlit("open");
    reveal_strlit("resolved");
    assert("open"@.len() != "resolved"@.len());
}

proof fn lemma_smallest_decimal(numbers: Seq<Decimal>, i: int)
    requires
        0 <= i < numbers.len(),
    ensures
        market_scanner::smallest(numbers).units <= numbers[i].units,
    decreases numbers.len(),
{
    if i < numbers.len() - 1 {
        lemma_smallest_decimal(numbers.drop_last(), i);
    }
}

/// Whatever outcome wins, the profit is at least the one that was guaranteed.
pub proof fn law_any_winner_pays_the_guarantee(holding: MarketHolding<Decimal>, winner: int)
    requires
        0 <= winner < holding.outcomes.len(),
    ensures
        resolved(holding, winner).realized_pnl matches Some(pnl) && guaranteed(holding).units
            <= pnl.units,
{
    lemma_smallest_decimal(contract_counts(holding), winner);
}

/// Contracts add to those held and cost their price; the average price is the
/// cost over the contracts, to the millionth below.
pub proof fn law_bought_contracts_are_added(
    holding: OutcomeHolding<Decimal>,
    contracts: Decimal,
    price: Decimal,
)
    requires
        0 <= holding.contracts.units <= 1_000_000_000_000,
        0 <= holding.cost_basis.units <= 1_000_000_000_000,
        0 < contracts.units <= 1_000_000_000_000,
        0 <= price.units <= 1_000_000,
    ensures
        ({
            let after = added(holding, contracts, price);
            let cost = after.cost_basis.units - holding.cost_basis.units;
            &&& after.contracts.units == holding.contracts.units + contracts.units
            &&& cost * 1_000_000 <= contracts.units * price.units < (cost + 1) * 1_000_000
            &&& after.avg_price.units * after.contracts.units <= after.cost_basis.units * 1_000_000
                < (after.avg_price.units + 1) * after.contracts.units
            &&& after.token_id == holding.token_id
            &&& after.outcome_name == holding.outcome_name
        }),
{
    let c = contracts.units as int;
    let p = price.units as int;
    assert(0 <= c * p <= c * 1_000_000) by (nonlinear_arith)
        requires
            0 < c,
            0 <= p <= 1_000_000,
    ;
    let paid = c * p / 1_000_000;
    assert(contracts.times_spec(price).units == paid);
    let after = added(holding, contracts, price);
    let cost = after.cost_basis.units as int;
    let held = after.contracts.units as int;
    assert(cost == holding.cost_basis.units + paid);
    assert(held == holding.contracts.units + c);
    let q = (cost * 1_000_000) / held;
    assert(0 <= q <= cost * 1_000_000 && q * held <= cost * 1_000_000 < (q + 1) * held)
        by (nonlinear_arith)
        requires
            q == (cost * 1_000_000) / held,
            cost >= 0,
            held > 0,
    ;
    assert(after.avg_price.units == q);
}

/// A fill adds its contracts to the outcome with its token, which starts from
/// nothing where it was not held, and its fees to the fees; the rest of the
/// market stays.
pub proof fn law_fill_is_added_to_its_outcome<Q: Quantity>(
    holding: MarketHolding<Q>,
    fill: FillRecord<Q>,
    i: int,
)
    requires
        0 <= i < holding.outcomes.len(),
        holding.outcomes[i].token_id == fill.token_id@,
        seqs::distinct(held_tokens(holding.outcomes)),
    ensures
        ({
            let after = after_fill(holding, fill);
            &&& after.outcomes.len() == holding.outcomes.len()
            &&& after.outcomes[i] == added(holding.outcomes[i], fill.contracts, fill.price)
            &&& after.total_fees == holding.total_fees.plus_spec(fill.fees)
            &&& after.condition_id == holding.condition_id
            &&& after.status == holding.status
            &&& after.realized_pnl == holding.realized_pnl
            &&& after.opened_at == holding.opened_at
        }),
{
    let tokens = held_tokens(holding.outcomes);
    seqs::lemma_first_at(tokens, fill.token_id@);
    let at = seqs::first_at(tokens, fill.token_id@);
    assert(tokens[i] == fill.token_id@);
    if at != i {
        assert(tokens[at] == tokens[i]);
        assert(false);
    }
}

/// A fill of an outcome that is not held yet opens it behind the others, with the
/// contracts of the fill and no others.
pub proof fn law_fill_opens_its_outcome(holding: MarketHolding<Decimal>, fill: FillRecord<Decimal>)
    requires
        forall|i: int|
            0 <= i < holding.outcomes.len() ==> (#[trigger] holding.outcomes[i]).token_id
                != fill.token_id@,
        0 < fill.contracts.units <= 1_000_000_000_000,
        0 <= fill.price.units <= 1_000_000,
    ensures
        ({
            let after = after_fill(holding, fill);
            let n = holding.outcomes.len() as int;
            let opened = after.outcomes[n];
            &&& after.outcomes.len() == n + 1
            &&& opened.token_id == fill.token_id@
            &&& opened.outcome_name == fill.outcome_name@
            &&& opened.contracts == fill.contracts
            &&& opened.cost_basis.units * 1_000_000 <= fill.contracts.units * fill.price.units < (
            opened.cost_basis.units + 1) * 1_000_000
            &&& forall|i: int|
                0 <= i < n ==> #[trigger] after.outcomes[i] == holding.outcomes[i]
        }),
{
    let tokens = held_tokens(holding.outcomes);
    assert forall|i: int| 0 <= i < tokens.len() implies #[trigger] tokens[i] != fill.token_id@ by {
        assert(holding.outcomes[i].token_id != fill.token_id@);
    }
    seqs::lemma_is_first_at(tokens, fill.token_id@, tokens.len() as int);
    let fresh = nothing_of::<Decimal>(fill.outcome_name@, fill.token_id@);
    law_bought_contracts_are_added(fresh, fill.contracts, fill.price);
    let after = after_fill(holding, fill);
    assert(after.outcomes[holding.outcomes.len() as int] == added(
        fresh,
        fill.contracts,
        fill.price,
    ));
    assert(added(fresh, fill.contracts, fill.price).contracts.units == fill.contracts.units);
}

/// A fill in a market that is not held yet opens it, with nothing but the fill.
pub proof fn law_fill_opens_its_market<Q: Quantity>(
    held: Seq<MarketHolding<Q>>,
    fill: FillRecord<Q>,
    now: Timestamp,
)
    requires
        forall|i: int|
            0 <= i < held.len() ==> (#[trigger] held[i]).condition_id != fill.condition_id@,
    ensures
        ({
            let after = with_fill(held, fill, now);
            let market = after[held.len() as int];
            &&& after.len() == held.len() + 1
            &&& market.condition_id == fill.condition_id@
            &&& market.description == fill.description@
            &&& market.status == "open"@
            &&& market.realized_pnl is None
            &&& market.opened_at == timestamp::utc_rfc3339(now.secs, now.nanos)
            &&& market.outcomes.len() == 1
            &&& market.outcomes[0].token_id == fill.token_id@
            &&& forall|i: int| 0 <= i < held.len() ==> #[trigger] after[i] == held[i]
        }),
{
    let ids = held_ids(held);
    assert forall|i: int| 0 <= i < ids.len() implies #[trigger] ids[i] != fill.condition_id@ by {
        assert(held[i].condition_id != fill.condition_id@);
    }
    seqs::lemma_is_first_at(ids, fill.condition_id@, ids.len() as int);
    let none = held_tokens(opened::<Q>(fill.condition_id@, fill.description@, now).outcomes);
    seqs::lemma_first_at(none, fill.token_id@);
}

/// Fills count one after the other.
pub proof fn law_fills_count_in_order<Q: Quantity>(
    held: Seq<MarketHolding<Q>>,
    fills: Seq<FillRecord<Q>>,
    now: Timestamp,
    n: int,
)
    requires
        n > 0,
    ensures
        with_fills(held, fills, now, 0) == held,
        with_fills(held, fills, now, n) == with_fill(
            with_fills(held, fills, now, n - 1),
            fills[n - 1],
            now,
        ),
{
}

/// A market costs what its outcomes cost and its fees; the guarantee is a dollar
/// for each contract held of every outcome, less that cost.
pub proof fn law_guarantee_is_matched_less_cost(holding: MarketHolding<Decimal>)
    requires
        forall|i: int|
            0 <= i < holding.outcomes.len() ==> (#[trigger] holding.outcomes[i]).cost_basis.units
                >= 0,
        market_scanner::total_units(cost_bases(holding)) <= 1_000_000_000_000_000,
        0 <= holding.total_fees.units <= 1_000_000_000_000_000,
        holding.outcomes.len() > 0,
        forall|i: int|
            0 <= i < holding.outcomes.len() ==> 0 <= (
            #[trigger] holding.outcomes[i]).contracts.units <= 1_000_000_000_000_000,
    ensures
        cost_of(holding).units == market_scanner::total_units(cost_bases(holding))
            + holding.total_fees.units,
        guaranteed(holding).units + cost_of(holding).units == matched_in(holding).units,
        forall|i: int|
            0 <= i < holding.outcomes.len() ==> matched_in(holding).units <= (
            #[trigger] holding.outcomes[i]).contracts.units,
        exists|i: int|
            0 <= i < holding.outcomes.len() && matched_in(holding) == (
            #[trigger] holding.outcomes[i]).contracts,
{
    let bases = cost_bases(holding);
    let counts = contract_counts(holding);
    assert forall|i: int| 0 <= i < bases.len() implies (#[trigger] bases[i]).units >= 0 by {
        assert(bases[i] == holding.outcomes[i].cost_basis);
    }
    market_scanner::law_decimals_add_up(bases);
    market_scanner::law_smallest_is_undercut_by_none(counts);
    assert forall|i: int| 0 <= i < holding.outcomes.len() implies matched_in(holding).units <= (
    #[trigger] holding.outcomes[i]).contracts.units by {
        assert(counts[i] == holding.outcomes[i].contracts);
    }
    let at = choose|i: int| 0 <= i < counts.len() && counts[i] == market_scanner::smallest(counts);
    assert(counts[at] == holding.outcomes[at].contracts);
}

/// An outcome that is none pays nothing: the loss is all that the market cost.
pub proof fn law_no_winner_pays_nothing(holding: MarketHolding<Decimal>, winner: int)
    requires
        winner >= holding.outcomes.len(),
        cost_of(holding).units > i64::MIN,
    ensures
        resolved(holding, winner).realized_pnl matches Some(pnl) && pnl.units == -cost_of(
            holding,
        ).units,
{
}

/// Each figure of the summary is that of the markets before and of the last one,
/// where that is open or, for what was realized, resolved.
pub proof fn law_summary_adds_up<Q: Quantity>(held: Seq<MarketHolding<Q>>, last: MarketHolding<Q>)
    ensures
        last.status == "open"@ ==> {
            &&& open_cost(held.push(last)) == open_cost(held).plus_spec(cost_of(last))
            &&& open_profit(held.push(last)) == open_profit(held).plus_spec(guaranteed(last))
            &&& open_contracts(held.push(last)) == open_contracts(held) + market_scanner::sum_up(
                contract_counts(last),
            ).truncated_spec(i64::MIN as i128, i64::MAX as i128)
        },
        last.status != "open"@ ==> {
            &&& open_cost(held.push(last)) == open_cost(held)
            &&& open_profit(held.push(last)) == open_profit(held)
            &&& open_contracts(held.push(last)) == open_contracts(held)
        },
        last.status == "resolved"@ && last.realized_pnl is Some ==> resolved_pnl(held.push(last))
            == resolved_pnl(held).plus_spec(last.realized_pnl.unwrap()),
        last.status != "resolved"@ ==> resolved_pnl(held.push(last)) == resolved_pnl(held),
        open_cost(Seq::<MarketHolding<Q>>::empty()) == Q::zero_spec(),
        open_profit(Seq::<MarketHolding<Q>>::empty()) == Q::zero_spec(),
        open_contracts(Seq::<MarketHolding<Q>>::empty()) == 0,
        resolved_pnl(Seq::<MarketHolding<Q>>::empty()) == Q::zero_spec(),
{
    assert(held.push(last).drop_last() =~= held);
}

/// The daily figure lasts for its day, and starts from nothing on another.
pub proof fn law_daily_figure_lasts_for_its_day(
    noted: Seq<char>,
    today: Seq<char>,
    pnl: Decimal,
)
    ensures
        daily_pnl_on(noted, noted, pnl) == pnl,
        noted != today ==> daily_pnl_on(noted, today, pnl).units == 0,
{
}

} // verus!
