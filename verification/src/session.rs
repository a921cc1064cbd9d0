//! A run of the bot: which books it opens, which markets it takes up, what it
//! shows, and when a day of paper trading is over.

use vstd::prelude::*;

use crate::config::Modes;
use crate::market_scanner::{Outcome, TrackedMarket};
use crate::paper_trading;
use crate::paper_trading::PaperTrader;
use crate::polymarket;
use crate::quantity::Quantity;
use crate::timestamp::Timestamp;
use crate::types;
use crate::types::{GlobalState, MultiOutcomeState, MAX_MARKETS};

verus! {

/// Heartbeats of a day: one a minute.
pub const HEARTBEATS_PER_DAY: u32 = 1440;

/// Seconds between two heartbeats.
pub const HEARTBEAT_SECS: u64 = 60;

/// Opens the books of simulated trading, where trades are simulated: those that
/// were kept, or new ones. Where live trading is forced they are closed at once.
pub fn open_books<Q: Quantity>(modes: Modes, kept: Option<PaperTrader<Q>>, now: Timestamp) -> (r:
    Option<PaperTrader<Q>>)
    ensures
        !modes.paper_mode ==> r is None,
        modes.paper_mode ==> {
            &&& r is Some
            &&& kept matches Some(books) ==> r.unwrap() == (PaperTrader {
                enabled: books.enabled && !modes.force_live,
                ..books
            })
            &&& kept is None && !modes.force_live ==> r.unwrap().is_opened(
                paper_trading::default_config(),
                now,
            )
            &&& kept is None && modes.force_live ==> !r.unwrap().enabled && (PaperTrader {
                enabled: true,
                ..r.unwrap()
            }).is_opened(paper_trading::default_config(), now)
        },
{
    if !modes.paper_mode {
        return None;
    }
    let mut books: PaperTrader<Q> = match kept {
        Some(books) => books,
        None => PaperTrader::new(now),
    };
    if modes.force_live {
        books.disable();
    }
    Some(books)
}

// ---------------------------------------------------------------------------
// Taking up markets
// ---------------------------------------------------------------------------

/// Name and token of each outcome of a market.
pub open spec fn named_tokens<Q>(market: TrackedMarket<Q>) -> Seq<(String, String)> {
    market.outcomes@.map_values(|o: Outcome<Q>| (o.name, o.token_id))
}

/// The markets taken up so far, how many there are with those before, and the
/// lookups.
pub struct Roster<Q> {
    pub entered: Seq<TrackedMarket<Q>>,
    pub count: int,
    pub tokens: Map<u64, (u16, usize)>,
    pub conditions: Map<u64, u16>,
}

/// The roster before any market is taken up.
pub open spec fn roster_of<Q>(state: GlobalState) -> Roster<Q> {
    Roster {
        entered: Seq::empty(),
        count: state.markets.len() as int,
        tokens: state.token_to_market@,
        conditions: state.condition_to_market@,
    }
}

/// The roster after one more market was looked at. It is taken up while there is
/// room, unless only new ones are and its condition is known.
pub open spec fn after_market<Q>(
    roster: Roster<Q>,
    market: TrackedMarket<Q>,
    only_new: bool,
) -> Roster<Q> {
    let key = types::key_of(market.condition_id@);
    if roster.count >= MAX_MARKETS || (only_new && roster.conditions.dom().contains(key)) {
        roster
    } else {
        let id = roster.count as u16;
        Roster {
            entered: roster.entered.push(market),
            count: roster.count + 1,
            tokens: types::tokens_entered(
                roster.tokens,
                id,
                types::token_keys(named_tokens(market)),
                named_tokens(market).len() as int,
            ),
            conditions: roster.conditions.insert(key, id),
        }
    }
}

/// The roster after the first `n` of some markets were looked at.
pub open spec fn after_markets<Q>(
    roster: Roster<Q>,
    markets: Seq<TrackedMarket<Q>>,
    only_new: bool,
    n: int,
) -> Roster<Q>
    decreases n,
{
    if n <= 0 {
        roster
    } else {
        after_market(
            after_markets(roster, markets, only_new, n - 1),
            markets[n - 1],
            only_new,
        )
    }
}

fn name_tokens<Q: Quantity>(market: &TrackedMarket<Q>) -> (r: Vec<(String, String)>)
    ensures
        r@ == named_tokens(*market),
{
    let mut pairs: Vec<(String, String)> = Vec::new();
    let mut i: usize = 0;
    while i < market.outcomes.len()
        invariant
            i <= market.outcomes.len(),
            pairs@ == named_tokens(*market).take(i as int),
        decreases market.outcomes.len() - i,
    {
        pairs.push((market.outcomes[i].name.clone(), market.outcomes[i].token_id.clone()));
        i = i + 1;
    }
    assert(pairs@ =~= named_tokens(*market));
    pairs
}

/// Takes up markets: all of them, or only those whose condition is not known.
/// Returns how many were taken up.
pub fn track_markets<Q: Quantity>(
    state: &mut GlobalState,
    markets: &Vec<TrackedMarket<Q>>,
    only_new: bool,
) -> (r: usize)
    requires
        old(state).wf(),
    ensures
        final(state).wf(),
        ({
            let first = old(state).markets.len();
            let after = after_markets(
                roster_of::<Q>(*old(state)),
                markets@,
                only_new,
                markets.len() as int,
            );
            &&& r == after.entered.len()
            &&& final(state).markets.len() == first + r
            &&& final(state).token_to_market@ == after.tokens
            &&& final(state).condition_to_market@ == after.conditions
            &&& forall|i: int|
                0 <= i < first ==> #[trigger] final(state).markets@[i] == old(state).markets@[i]
            &&& forall|k: int|
                0 <= k < r ==> final(state).markets@[first + k].is_fresh(
                    (first + k) as u16,
                    (#[trigger] after.entered[k]).condition_id@,
                    after.entered[k].question@,
                    named_tokens(after.entered[k]),
                )
        }),
{
    let ghost before = *state;
    let ghost first = before.markets.len();
    let ghost start = roster_of::<Q>(before);
    let mut taken: usize = 0;
    let mut i: usize = 0;
    while i < markets.len()
        invariant
            before == *old(state),
            first == before.markets.len(),
            start == roster_of::<Q>(before),
            i <= markets.len(),
            taken <= i,
            state.wf(),
            ({
                let roster = after_markets(start, markets@, only_new, i as int);
                &&& taken == roster.entered.len()
                &&& roster.count == first + taken
                &&& state.markets.len() == first + taken
                &&& state.token_to_market@ == roster.tokens
                &&& state.condition_to_market@ == roster.conditions
                &&& forall|j: int|
                    0 <= j < first ==> #[trigger] state.markets@[j] == before.markets@[j]
                &&& forall|k: int|
                    0 <= k < taken ==> state.markets@[first + k].is_fresh(
                        (first + k) as u16,
                        (#[trigger] roster.entered[k]).condition_id@,
                        roster.entered[k].question@,
                        named_tokens(roster.entered[k]),
                    )
            }),
        decreases markets.len() - i,
    {
        let market = &markets[i];
        let ghost roster = after_markets(start, markets@, only_new, i as int);
        let ghost was = *state;
        let known: bool = only_new && state.has_condition(market.condition_id.as_str());
        if !known {
            let outcomes: Vec<(String, String)> = name_tokens(market);
            let added: Option<u16> = state.add_market(
                market.condition_id.as_str(),
                market.question.as_str(),
                outcomes,
            );
            if added.is_some() {
                taken = taken + 1;
            }
        }
        i = i + 1;
        proof {
            let next = after_markets(start, markets@, only_new, i as int);
            assert(next == after_market(roster, *market, only_new));
            assert forall|k: int| 0 <= k < taken implies state.markets@[first + k].is_fresh(
                (first + k) as u16,
                (#[trigger] next.entered[k]).condition_id@,
                next.entered[k].question@,
                named_tokens(next.entered[k]),
            ) by {
                if k < roster.entered.len() {
                    assert(next.entered[k] == roster.entered[k]);
                    assert(state.markets@[first + k] == was.markets@[first + k]);
                }
            }
            assert forall|j: int| 0 <= j < first implies #[trigger] state.markets@[j]
                == before.markets@[j] by {
                assert(was.markets@[j] == before.markets@[j]);
            }
        }
    }
    taken
}

// ---------------------------------------------------------------------------
// What is shown
// ---------------------------------------------------------------------------

/// The best of some opportunities: the last one with the most profit.
pub open spec fn best_of(candidates: Seq<MultiOutcomeState>) -> Option<MultiOutcomeState>
    decreases candidates.len(),
{
    if candidates.len() == 0 {
        None
    } else {
        let last = candidates.last();
        match best_of(candidates.drop_last()) {
            Some(best) => if types::profit_of(best.ask_sum()) > types::profit_of(last.ask_sum()) {
                Some(best)
            } else {
                Some(last)
            },
            None => Some(last),
        }
    }
}

/// The best of some opportunities.
pub fn best_opportunity<'a>(candidates: &Vec<&'a MultiOutcomeState>) -> (r: Option<
    &'a MultiOutcomeState,
>)
    requires
        forall|i: int|
            0 <= i < candidates.len() ==> types::profit_fits((#[trigger] candidates@[i]).ask_sum()),
    ensures
        match r {
            Some(market) => best_of(candidates@.unref()) == Some(*market),
            None => candidates.len() == 0,
        },
{
    let ghost all = candidates@.unref();
    let mut best: Option<&'a MultiOutcomeState> = None;
    let mut i: usize = 0;
    assert(all.take(0) =~= Seq::empty());
    while i < candidates.len()
        invariant
            all == candidates@.unref(),
            forall|i: int|
                0 <= i < candidates.len() ==> types::profit_fits(
                    (#[trigger] candidates@[i]).ask_sum(),
                ),
            i <= candidates.len(),
            match best {
                Some(market) => best_of(all.take(i as int)) == Some(*market)
                    && types::profit_fits(market.ask_sum()),
                None => i == 0,
            },
        decreases candidates.len() - i,
    {
        assert(all.take(i + 1).drop_last() =~= all.take(i as int));
        let market: &'a MultiOutcomeState = candidates[i];
        assert(all.take(i + 1).last() == *market);
        assert(types::profit_fits(candidates@[i as int].ask_sum()));
        let better: bool = match best {
            Some(held) => held.profit_cents() <= market.profit_cents(),
            None => true,
        };
        if better {
            best = Some(market);
        }
        i = i + 1;
    }
    assert(all.take(i as int) =~= all);
    best
}

/// Counts heartbeats, so as to know when a day is over.
#[derive(Clone, Copy, Debug, PartialEq, Eq, Structural)]
pub struct DayClock {
    pub beats: u32,
}

impl DayClock {
    /// The first beat of a run.
    pub fn new() -> (r: Self)
        ensures
            r.beats == 1,
    {
        DayClock { beats: 1 }
    }

    /// Counts a heartbeat, and says whether a day is over with it.
    pub fn beat(&mut self) -> (r: bool)
        requires
            old(self).beats < u32::MAX,
        ensures
            final(self).beats == old(self).beats + 1,
            r == ends_day(final(self).beats as int),
    {
        self.beats = self.beats + 1;
        self.beats % HEARTBEATS_PER_DAY == 0
    }
}

/// Markets that are taken up leave the prices of the feed in place: what was
/// held before holds after, where no market has too many outcomes.
pub proof fn law_taking_up_keeps_feed_prices<Q: Quantity>(
    before: GlobalState,
    after: GlobalState,
    entered: Seq<TrackedMarket<Q>>,
)
    requires
        polymarket::holds_feed_prices(before),
        after.markets.len() == before.markets.len() + entered.len(),
        forall|i: int|
            0 <= i < before.markets.len() ==> #[trigger] after.markets@[i] == before.markets@[i],
        forall|k: int|
            0 <= k < entered.len() ==> after.markets@[before.markets.len() + k].is_fresh(
                (before.markets.len() + k) as u16,
                (#[trigger] entered[k]).condition_id@,
                entered[k].question@,
                named_tokens(entered[k]),
            ),
        forall|k: int|
            0 <= k < entered.len() ==> 99 * (#[trigger] entered[k]).outcomes.len() <= i16::MAX,
    ensures
        polymarket::holds_feed_prices(after),
{
    let first = before.markets.len();
    assert forall|i: int| 0 <= i < after.markets.len() implies polymarket::are_feed_prices(
        polymarket::quotes_of(#[trigger] after.markets@[i]),
    ) by {
        if i < first {
            assert(polymarket::are_feed_prices(polymarket::quotes_of(before.markets@[i])));
        } else {
            let k = i - first;
            let market = entered[k];
            assert(named_tokens(market).len() == market.outcomes.len());
            polymarket::law_fresh_market_holds_feed_prices(
                after.markets@[i],
                i as u16,
                market.condition_id@,
                market.question@,
                named_tokens(market),
            );
        }
    }
}

/// Whether a day is over with the heartbeat of this number.
pub open spec fn ends_day(beats: int) -> bool {
    beats % HEARTBEATS_PER_DAY as int == 0
}

/// A day has as many heartbeats as a day has minutes: from the end of one day
/// to the end of the next there are exactly so many.
pub proof fn law_days_are_evenly_spaced(beats: int, later: int)
    requires
        ends_day(beats),
        ends_day(later),
        beats < later,
        forall|between: int| beats < between < later ==> !#[trigger] ends_day(between),
    ensures
        later - beats == HEARTBEATS_PER_DAY,
{
    let next = beats + HEARTBEATS_PER_DAY;
    assert(ends_day(next));
}

/// The best opportunity is one of them, none brings more, and of those that bring
/// as much it is the last.
pub proof fn law_best_brings_the_most(candidates: Seq<MultiOutcomeState>)
    requires
        candidates.len() > 0,
    ensures
        best_of(candidates) is Some,
        forall|i: int|
            0 <= i < candidates.len() ==> types::profit_of((#[trigger] candidates[i]).ask_sum())
                <= types::profit_of(best_of(candidates).unwrap().ask_sum()),
        exists|i: int|
            {
                &&& 0 <= i < candidates.len()
                &&& best_of(candidates) == Some(#[trigger] candidates[i])
                &&& forall|j: int|
                    i < j < candidates.len() ==> types::profit_of(
                        (#[trigger] candidates[j]).ask_sum(),
                    ) < types::profit_of(candidates[i].ask_sum())
            },
    decreases candidates.len(),
{
    let front = candidates.drop_last();
    let n = candidates.len() - 1;
    if front.len() > 0 {
        law_best_brings_the_most(front);
        let at = choose|i: int|
            {
                &&& 0 <= i < front.len()
                &&& best_of(front) == Some(#[trigger] front[i])
                &&& forall|j: int|
                    i < j < front.len() ==> types::profit_of((#[trigger] front[j]).ask_sum())
                        < types::profit_of(front[i].ask_sum())
            };
        assert forall|i: int| 0 <= i < candidates.len() implies types::profit_of(
            (#[trigger] candidates[i]).ask_sum(),
        ) <= types::profit_of(best_of(candidates).unwrap().ask_sum()) by {
            if i < n {
                assert(front[i] == candidates[i]);
            }
        }
        if best_of(candidates) == best_of(front) && types::profit_of(front[at].ask_sum())
            > types::profit_of(candidates[n].ask_sum()) {
            assert(best_of(candidates) == Some(candidates[at]));
            assert forall|j: int| at < j < candidates.len() implies types::profit_of(
                (#[trigger] candidates[j]).ask_sum(),
            ) < types::profit_of(candidates[at].ask_sum()) by {
                if j < n {
                    assert(front[j] == candidates[j]);
                }
            }
        } else {
            assert(best_of(candidates) == Some(candidates[n]));
        }
    } else {
        assert(best_of(candidates) == Some(candidates[n]));
    }
}

/// A market is taken up exactly where there is room and, where only new ones are,
/// its condition is not known yet; it then gets the next number, under which its
/// condition is found.
pub proof fn law_markets_are_taken_up_while_there_is_room<Q>(
    roster: Roster<Q>,
    market: TrackedMarket<Q>,
    only_new: bool,
)
    requires
        0 <= roster.count,
    ensures
        ({
            let after = after_market(roster, market, only_new);
            let key = types::key_of(market.condition_id@);
            let taken = roster.count < 2048 && !(only_new && roster.conditions.dom().contains(key));
            &&& !taken ==> after == roster
            &&& taken ==> {
                &&& after.count == roster.count + 1
                &&& after.entered == roster.entered.push(market)
                &&& after.conditions.dom().contains(key)
                &&& after.conditions[key] == roster.count
                &&& forall|other: u64|
                    other != key ==> (#[trigger] after.conditions.dom().contains(other)
                        == roster.conditions.dom().contains(other))
            }
        }),
{
}

/// Markets are looked at one after the other, and each outcome goes in by its
/// name and its token.
pub proof fn law_markets_are_looked_at_in_order<Q>(
    roster: Roster<Q>,
    markets: Seq<TrackedMarket<Q>>,
    only_new: bool,
    n: int,
    market: TrackedMarket<Q>,
    i: int,
)
    requires
        0 < n,
        0 <= i < market.outcomes.len(),
    ensures
        after_markets(roster, markets, only_new, 0) == roster,
        after_markets(roster, markets, only_new, n) == after_market(
            after_markets(roster, markets, only_new, n - 1),
            markets[n - 1],
            only_new,
        ),
        named_tokens(market).len() == market.outcomes.len(),
        named_tokens(market)[i].0 == market.outcomes@[i].name,
        named_tokens(market)[i].1 == market.outcomes@[i].token_id,
{
}

/// The first day of a run is a heartbeat short, as the clock starts with one; the
/// days after it are whole.
pub proof fn law_first_day_ends(beats: int)
    requires
        1 <= beats <= 2880,
    ensures
        ends_day(beats) <==> beats == 1440 || beats == 2880,
{
}

} // verus!
