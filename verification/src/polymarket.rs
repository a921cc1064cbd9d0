//! The price feed: what its messages do to the quotes, which opportunities they
//! open, and when the connection is given up.

use vstd::prelude::*;
use vstd::string::*;

pub use crate::gamma::GammaMarket;

use crate::config::{GAMMA_API_BASE, MARKET_SCAN_INTERVAL_SECS};
use crate::quantity::Quantity;
use crate::seqs;
use crate::text;
use crate::types;
use crate::types::{
    parse_price, parse_size, ArbType, AtomicOutcomeBook, ExecutionRequest, GlobalState,
    MultiOutcomeState, OutcomeMeta, Quote,
};

verus! {

// ---------------------------------------------------------------------------
// Messages
// ---------------------------------------------------------------------------

/// The order book of a token.
#[derive(Debug)]
pub struct BookSnapshot {
    pub asset_id: String,
    pub bids: Vec<PriceLevel>,
    pub asks: Vec<PriceLevel>,
}

/// A price and what is on offer at it.
#[derive(Debug)]
pub struct PriceLevel {
    pub price: String,
    pub size: String,
}

/// A message on changed prices.
#[derive(Debug)]
pub struct PriceChangeEvent {
    pub event_type: Option<String>,
    pub price_changes: Option<Vec<PriceChangeItem>>,
}

/// A changed price.
#[derive(Debug)]
pub struct PriceChangeItem {
    pub asset_id: String,
    pub price: Option<String>,
    pub side: Option<String>,
}

/// The address of the list of all open markets.
pub fn markets_url() -> (r: String)
    ensures
        r@ == GAMMA_API_BASE@ + "/markets?active=true&closed=false&limit=1000"@,
{
    let mut url: String = GAMMA_API_BASE.to_string();
    url.append("/markets?active=true&closed=false&limit=1000");
    url
}

/// The address of one market.
pub fn market_url(condition_id: &str) -> (r: String)
    ensures
        r@ == GAMMA_API_BASE@ + "/markets?condition_id="@ + condition_id@,
{
    let mut url: String = GAMMA_API_BASE.to_string();
    url.append("/markets?condition_id=");
    url.append(condition_id);
    url
}

// ---------------------------------------------------------------------------
// Quotes
// ---------------------------------------------------------------------------

/// The quotes of a market, in the order of its outcomes.
pub open spec fn quotes_of(market: MultiOutcomeState) -> Seq<Quote> {
    market.books@.map_values(|b: AtomicOutcomeBook| b@)
}

/// The quotes of all markets.
pub open spec fn all_quotes(markets: Seq<MultiOutcomeState>) -> Seq<Seq<Quote>> {
    markets.map_values(|m: MultiOutcomeState| quotes_of(m))
}

/// The ask prices of some quotes.
pub open spec fn quoted_prices(quotes: Seq<Quote>) -> Seq<u16> {
    quotes.map_values(|q: Quote| q.ask_price)
}

/// The ask sizes of some quotes.
pub open spec fn quoted_sizes(quotes: Seq<Quote>) -> Seq<u16> {
    quotes.map_values(|q: Quote| q.ask_size)
}

/// Whether every outcome has a price.
pub open spec fn all_quoted(quotes: Seq<Quote>) -> bool {
    forall|i: int| 0 <= i < quotes.len() ==> (#[trigger] quotes[i]).ask_price > 0
}

/// Whether every outcome has a price and buying all of them brings at least
/// `min_profit_cents`.
pub open spec fn is_worth(quotes: Seq<Quote>, min_profit_cents: i16) -> bool {
    &&& all_quoted(quotes)
    &&& types::profit_of(seqs::total(quoted_prices(quotes))) >= min_profit_cents
}

/// `after` differs from `before` in nothing but the quotes.
pub open spec fn same_but_quotes(after: GlobalState, before: GlobalState) -> bool {
    &&& after.next_market_id == before.next_market_id
    &&& after.token_to_market == before.token_to_market
    &&& after.condition_to_market == before.condition_to_market
    &&& after.markets.len() == before.markets.len()
    &&& forall|i: int|
        0 <= i < before.markets.len() ==> {
            let a = #[trigger] after.markets@[i];
            let b = before.markets@[i];
            &&& a.market_id == b.market_id
            &&& a.condition_id == b.condition_id
            &&& a.question == b.question
            &&& a.outcomes == b.outcomes
            &&& a.outcome_count == b.outcome_count
            &&& a.books.len() == b.books.len()
        }
}

/// All asks of a market are prices that the feed can give, and 16 bits hold
/// the sum of as many of them as there are outcomes.
pub open spec fn are_feed_prices(quotes: Seq<Quote>) -> bool {
    &&& 99 * quotes.len() <= i16::MAX
    &&& forall|j: int| 0 <= j < quotes.len() ==> (#[trigger] quotes[j]).ask_price <= 99
}

/// The same of all markets.
pub open spec fn holds_feed_prices(state: GlobalState) -> bool {
    forall|i: int|
        0 <= i < state.markets.len() ==> are_feed_prices(quotes_of(#[trigger] state.markets@[i]))
}

/// Whether the profit at some quotes is within range, where all are there.
pub open spec fn profit_in_range(quotes: Seq<Quote>) -> bool {
    all_quoted(quotes) ==> types::profit_fits(seqs::total(quoted_prices(quotes)))
}

/// Quotes, and the opportunities that opened so far: the market of each and its
/// quotes at the time.
pub struct Feed {
    pub quotes: Seq<Seq<Quote>>,
    pub offers: Seq<(int, Seq<Quote>)>,
}

/// The feed after an ask for the outcome that `place` leads to.
pub open spec fn after_ask(
    feed: Feed,
    place: Option<(u16, usize)>,
    price: u16,
    size: u16,
    min_profit_cents: i16,
) -> Feed {
    match place {
        None => feed,
        Some((market, outcome)) => {
            let m = market as int;
            let o = outcome as int;
            let quote = Quote { ask_price: price, ask_size: size, ..feed.quotes[m][o] };
            let quotes = feed.quotes.update(m, feed.quotes[m].update(o, quote));
            Feed {
                quotes,
                offers: if is_worth(quotes[m], min_profit_cents) {
                    feed.offers.push((m, quotes[m]))
                } else {
                    feed.offers
                },
            }
        },
    }
}

/// Whether an ask leaves the profit of the market that it is for within range.
pub open spec fn ask_fits(feed: Feed, place: Option<(u16, usize)>, price: u16, size: u16) -> bool {
    place matches Some((market, _)) ==> profit_in_range(
        after_ask(feed, place, price, size, 0).quotes[market as int],
    )
}

/// Price and size of a level in cents.
pub open spec fn level_of<Q: Quantity>(level: PriceLevel) -> (u16, u16) {
    (
        types::price_of_text::<Q>(level.price@) as u16,
        types::size_of_text::<Q>(level.size@) as u16,
    )
}

/// The best of some asks: the first one with the lowest price, levels without a
/// price aside; `(0, 0)` where there is none.
pub open spec fn best_ask<Q: Quantity>(asks: Seq<PriceLevel>) -> (u16, u16)
    decreases asks.len(),
{
    if asks.len() == 0 {
        (0, 0)
    } else {
        let best = best_ask::<Q>(asks.drop_last());
        let level = level_of::<Q>(asks.last());
        if level.0 > 0 && (best.0 == 0 || level.0 < best.0) {
            level
        } else {
            best
        }
    }
}

/// The feed after the order book of a token.
pub open spec fn after_book<Q: Quantity>(
    feed: Feed,
    state: GlobalState,
    book: BookSnapshot,
    min_profit_cents: i16,
) -> Feed {
    let best = best_ask::<Q>(book.asks@);
    after_ask(feed, state.token_lookup(book.asset_id@), best.0, best.1, min_profit_cents)
}

/// Whether the order book of a token leaves the profit of its market within
/// range.
pub open spec fn book_fits<Q: Quantity>(feed: Feed, state: GlobalState, book: BookSnapshot) -> bool {
    let best = best_ask::<Q>(book.asks@);
    ask_fits(feed, state.token_lookup(book.asset_id@), best.0, best.1)
}

/// Whether a side is that of the asks.
pub open spec fn is_ask_side(side: Option<String>) -> bool {
    side matches Some(s) && (s@ == "ASK"@ || s@ == "ask"@)
}

/// The feed after a changed price. It counts only for asks, and only where
/// there is a price; the size stays.
pub open spec fn after_change<Q: Quantity>(
    feed: Feed,
    state: GlobalState,
    change: PriceChangeItem,
    min_profit_cents: i16,
) -> Feed {
    let place = state.token_lookup(change.asset_id@);
    match (change.price, place) {
        (Some(price), Some((market, outcome))) => {
            let cents = types::price_of_text::<Q>(price@) as u16;
            if is_ask_side(change.side) && cents != 0 {
                let size = feed.quotes[market as int][outcome as int].ask_size;
                after_ask(feed, place, cents, size, min_profit_cents)
            } else {
                feed
            }
        },
        _ => feed,
    }
}

/// Whether a changed price leaves the profit of its market within range.
pub open spec fn change_fits<Q: Quantity>(
    feed: Feed,
    state: GlobalState,
    change: PriceChangeItem,
) -> bool {
    let place = state.token_lookup(change.asset_id@);
    match (change.price, place) {
        (Some(price), Some((market, outcome))) => {
            let cents = types::price_of_text::<Q>(price@) as u16;
            let size = feed.quotes[market as int][outcome as int].ask_size;
            is_ask_side(change.side) && cents != 0 ==> ask_fits(feed, place, cents, size)
        },
        _ => true,
    }
}

/// The feed after the first `n` of some order books.
pub open spec fn after_books<Q: Quantity>(
    feed: Feed,
    state: GlobalState,
    books: Seq<BookSnapshot>,
    min_profit_cents: i16,
    n: int,
) -> Feed
    decreases n,
{
    if n <= 0 {
        feed
    } else {
        after_book::<Q>(
            after_books::<Q>(feed, state, books, min_profit_cents, n - 1),
            state,
            books[n - 1],
            min_profit_cents,
        )
    }
}

/// Whether each of some order books, one after the other, leaves the profit of
/// its market within range.
pub open spec fn books_fit<Q: Quantity>(
    feed: Feed,
    state: GlobalState,
    books: Seq<BookSnapshot>,
    min_profit_cents: i16,
) -> bool {
    forall|i: int|
        0 <= i < books.len() ==> book_fits::<Q>(
            after_books::<Q>(feed, state, books, min_profit_cents, i),
            state,
            #[trigger] books[i],
        )
}

/// The feed after the first `n` of some changed prices.
pub open spec fn after_changes<Q: Quantity>(
    feed: Feed,
    state: GlobalState,
    changes: Seq<PriceChangeItem>,
    min_profit_cents: i16,
    n: int,
) -> Feed
    decreases n,
{
    if n <= 0 {
        feed
    } else {
        after_change::<Q>(
            after_changes::<Q>(feed, state, changes, min_profit_cents, n - 1),
            state,
            changes[n - 1],
            min_profit_cents,
        )
    }
}

/// Whether each of some changed prices, one after the other, leaves the profit
/// of its market within range.
pub open spec fn changes_fit<Q: Quantity>(
    feed: Feed,
    state: GlobalState,
    changes: Seq<PriceChangeItem>,
    min_profit_cents: i16,
) -> bool {
    forall|i: int|
        0 <= i < changes.len() ==> change_fits::<Q>(
            after_changes::<Q>(feed, state, changes, min_profit_cents, i),
            state,
            #[trigger] changes[i],
        )
}

/// The feed after a message on changed prices.
pub open spec fn after_event<Q: Quantity>(
    feed: Feed,
    state: GlobalState,
    event: PriceChangeEvent,
    min_profit_cents: i16,
) -> Feed {
    match (event.event_type, event.price_changes) {
        (Some(event_type), Some(changes)) => if event_type@ == "price_change"@ {
            after_changes::<Q>(feed, state, changes@, min_profit_cents, changes.len() as int)
        } else {
            feed
        },
        _ => feed,
    }
}

/// Whether a message on changed prices leaves all profits within range.
pub open spec fn event_fits<Q: Quantity>(
    feed: Feed,
    state: GlobalState,
    event: PriceChangeEvent,
    min_profit_cents: i16,
) -> bool {
    match (event.event_type, event.price_changes) {
        (Some(event_type), Some(changes)) => event_type@ == "price_change"@ ==> changes_fit::<Q>(
            feed,
            state,
            changes@,
            min_profit_cents,
        ),
        _ => true,
    }
}

/// The feed before a message: the quotes of a state, and no opportunity yet.
pub open spec fn feed_of(state: GlobalState) -> Feed {
    Feed { quotes: all_quotes(state.markets@), offers: Seq::empty() }
}

/// The tokens of some outcomes.
pub open spec fn outcome_tokens(outcomes: Seq<OutcomeMeta>) -> Seq<String> {
    outcomes.map_values(|o: OutcomeMeta| o.token_id)
}

/// Whether a request is the one for a market at the given quotes.
pub open spec fn is_request_for(
    request: ExecutionRequest,
    market: MultiOutcomeState,
    quotes: Seq<Quote>,
    now_ns: u64,
) -> bool {
    &&& request.market_id == market.market_id
    &&& request.condition_id == market.condition_id
    &&& request.arb_type == (if market.outcome_count == 2 {
        ArbType::Binary
    } else {
        ArbType::MultiOutcome
    })
    &&& request.ask_prices@ == quoted_prices(quotes)
    &&& request.ask_sizes@ == quoted_sizes(quotes)
    &&& request.token_ids@ == outcome_tokens(market.outcomes@)
    &&& request.expected_profit_cents == types::profit_of(seqs::total(quoted_prices(quotes)))
    &&& request.detected_ns == now_ns
}

/// Whether some requests are those for some opportunities, in order.
pub open spec fn are_requests_for(
    requests: Seq<ExecutionRequest>,
    state: GlobalState,
    offers: Seq<(int, Seq<Quote>)>,
    now_ns: u64,
) -> bool {
    &&& requests.len() == offers.len()
    &&& forall|i: int|
        0 <= i < requests.len() ==> is_request_for(
            #[trigger] requests[i],
            state.markets@[offers[i].0],
            offers[i].1,
            now_ns,
        )
}

proof fn lemma_quotes(market: MultiOutcomeState)
    ensures
        quoted_prices(quotes_of(market)) == types::ask_prices_of(market.books@),
        quoted_sizes(quotes_of(market)) == types::ask_sizes_of(market.books@),
        forall|m: i16|
            is_worth(quotes_of(market), m) == #[trigger] types::is_candidate(market, m),
{
    assert(quoted_prices(quotes_of(market)) =~= types::ask_prices_of(market.books@));
    assert(quoted_sizes(quotes_of(market)) =~= types::ask_sizes_of(market.books@));
    assert forall|m: i16| is_worth(quotes_of(market), m) == #[trigger] types::is_candidate(
        market,
        m,
    ) by {
        let quotes = quotes_of(market);
        if is_worth(quotes, m) {
            assert forall|i: int| 0 <= i < market.books.len() implies (
            #[trigger] market.books@[i])@.ask_price > 0 by {
                assert(quotes[i].ask_price > 0);
            }
        }
    }
}

/// What is asked for a market: every outcome, at its quotes.
fn execution_request(market: &MultiOutcomeState, now_ns: u64) -> (r: ExecutionRequest)
    requires
        types::profit_fits(market.ask_sum()),
    ensures
        is_request_for(r, *market, quotes_of(*market), now_ns),
{
    proof {
        lemma_quotes(*market);
    }
    let arb_type: ArbType = if market.is_binary() { ArbType::Binary } else {
        ArbType::MultiOutcome
    };
    let mut token_ids: Vec<String> = Vec::new();
    let mut i: usize = 0;
    while i < market.outcomes.len()
        invariant
            i <= market.outcomes.len(),
            token_ids@ == outcome_tokens(market.outcomes@).take(i as int),
        decreases market.outcomes.len() - i,
    {
        token_ids.push(market.outcomes[i].token_id.clone());
        i = i + 1;
    }
    assert(token_ids@ =~= outcome_tokens(market.outcomes@));
    ExecutionRequest {
        market_id: market.market_id,
        condition_id: market.condition_id.clone(),
        arb_type,
        ask_prices: market.ask_prices(),
        ask_sizes: market.ask_sizes(),
        token_ids,
        expected_profit_cents: market.profit_cents(),
        detected_ns: now_ns,
    }
}

/// Finds the best ask: the first level with the lowest price.
pub fn find_best_ask<Q: Quantity>(asks: &Vec<PriceLevel>) -> (r: (u16, u16))
    ensures
        r == best_ask::<Q>(asks@),
        r.0 <= 99,
{
    let mut best: (u16, u16) = (0, 0);
    let mut i: usize = 0;
    assert(asks@.take(0) =~= Seq::empty());
    while i < asks.len()
        invariant
            i <= asks.len(),
            best == best_ask::<Q>(asks@.take(i as int)),
            best.0 <= 99,
        decreases asks.len() - i,
    {
        assert(asks@.take(i + 1).drop_last() =~= asks@.take(i as int));
        let price: u16 = parse_price::<Q>(asks[i].price.as_str());
        let size: u16 = parse_size::<Q>(asks[i].size.as_str());
        if price > 0 && (best.0 == 0 || price < best.0) {
            best = (price, size);
        }
        i = i + 1;
    }
    assert(asks@.take(i as int) =~= asks@);
    best
}

/// Quotes an ask for an outcome. Returns what is to be bought where its market
/// is now worth it.
pub fn quote_place(
    state: &mut GlobalState,
    place: (u16, usize),
    price: u16,
    size: u16,
    min_profit_cents: i16,
    now_ns: u64,
) -> (r: Option<ExecutionRequest>)
    requires
        old(state).wf(),
        place.0 < old(state).markets.len(),
        place.1 < old(state).markets@[place.0 as int].books.len(),
        ask_fits(feed_of(*old(state)), Some(place), price, size),
    ensures
        final(state).wf(),
        same_but_quotes(*final(state), *old(state)),
        ({
            let after = after_ask(
                feed_of(*old(state)),
                Some(place),
                price,
                size,
                min_profit_cents,
            );
            &&& all_quotes(final(state).markets@) == after.quotes
            &&& match r {
                Some(request) => after.offers.len() == 1 && is_request_for(
                    request,
                    old(state).markets@[after.offers[0].0],
                    after.offers[0].1,
                    now_ns,
                ),
                None => after.offers.len() == 0,
            }
        }),
{
    let ghost before = *state;
    let ghost after = after_ask(feed_of(before), Some(place), price, size, min_profit_cents);
    let market_id: u16 = place.0;
    state.set_ask(market_id, place.1, price, size);
    proof {
        let m = market_id as int;
        assert(all_quotes(before.markets@)[m] == quotes_of(before.markets@[m]));
        assert(quotes_of(state.markets@[m]) =~= after.quotes[m]);
        assert(all_quotes(state.markets@) =~= after.quotes);
        lemma_quotes(state.markets@[m]);
        assert(is_worth(after.quotes[m], min_profit_cents) == types::is_candidate(
            state.markets@[m],
            min_profit_cents,
        ));
    }
    let market = &state.markets[market_id as usize];
    if market.all_priced() && market.profit_cents() >= min_profit_cents {
        Some(execution_request(market, now_ns))
    } else {
        None
    }
}

/// Takes in the order book of a token. Returns what is to be bought where its
/// market is now worth it.
pub fn process_book<Q: Quantity>(
    state: &mut GlobalState,
    book: &BookSnapshot,
    min_profit_cents: i16,
    now_ns: u64,
) -> (r: Option<ExecutionRequest>)
    requires
        old(state).wf(),
        book_fits::<Q>(feed_of(*old(state)), *old(state), *book),
    ensures
        final(state).wf(),
        same_but_quotes(*final(state), *old(state)),
        ({
            let after = after_book::<Q>(
                feed_of(*old(state)),
                *old(state),
                *book,
                min_profit_cents,
            );
            &&& all_quotes(final(state).markets@) == after.quotes
            &&& match r {
                Some(request) => after.offers.len() == 1 && is_request_for(
                    request,
                    old(state).markets@[after.offers[0].0],
                    after.offers[0].1,
                    now_ns,
                ),
                None => after.offers.len() == 0,
            }
        }),
{
    let (price, size) = find_best_ask::<Q>(&book.asks);
    match state.find_by_token(book.asset_id.as_str()) {
        Some(place) => quote_place(state, place, price, size, min_profit_cents, now_ns),
        None => None,
    }
}

fn is_ask(side: &Option<String>) -> (r: bool)
    ensures
        r == is_ask_side(*side),
{
    match side {
        Some(s) => text::same(s.as_str(), "ASK") || text::same(s.as_str(), "ask"),
        None => false,
    }
}

/// Takes in a changed price. Returns what is to be bought where its market is
/// now worth it.
pub fn process_price_change<Q: Quantity>(
    state: &mut GlobalState,
    change: &PriceChangeItem,
    min_profit_cents: i16,
    now_ns: u64,
) -> (r: Option<ExecutionRequest>)
    requires
        old(state).wf(),
        change_fits::<Q>(feed_of(*old(state)), *old(state), *change),
    ensures
        final(state).wf(),
        same_but_quotes(*final(state), *old(state)),
        ({
            let after = after_change::<Q>(
                feed_of(*old(state)),
                *old(state),
                *change,
                min_profit_cents,
            );
            &&& all_quotes(final(state).markets@) == after.quotes
            &&& match r {
                Some(request) => after.offers.len() == 1 && is_request_for(
                    request,
                    old(state).markets@[after.offers[0].0],
                    after.offers[0].1,
                    now_ns,
                ),
                None => after.offers.len() == 0,
            }
        }),
{
    if !is_ask(&change.side) {
        return None;
    }
    let price: u16 = match &change.price {
        Some(s) => parse_price::<Q>(s.as_str()),
        None => {
            return None;
        },
    };
    if price == 0 {
        return None;
    }
    match state.find_by_token(change.asset_id.as_str()) {
        Some((market_id, outcome)) => {
            let size: u16 = state.markets[market_id as usize].books[outcome].ask_size();
            proof {
                let m = market_id as int;
                assert(all_quotes(state.markets@)[m] == quotes_of(state.markets@[m]));
                assert(quotes_of(state.markets@[m])[outcome as int].ask_size == size);
            }
            quote_place(
                state,
                (market_id, outcome),
                price,
                size,
                min_profit_cents,
                now_ns,
            )
        },
        None => None,
    }
}

proof fn lemma_offers_add_up(
    feed: Feed,
    place: Option<(u16, usize)>,
    price: u16,
    size: u16,
    min_profit_cents: i16,
)
    ensures
        ({
            let after = after_ask(feed, place, price, size, min_profit_cents);
            let alone = after_ask(
                Feed { quotes: feed.quotes, offers: Seq::empty() },
                place,
                price,
                size,
                min_profit_cents,
            );
            &&& after.quotes == alone.quotes
            &&& after.offers == feed.offers + alone.offers
        }),
{
    let after = after_ask(feed, place, price, size, min_profit_cents);
    let alone = after_ask(
        Feed { quotes: feed.quotes, offers: Seq::empty() },
        place,
        price,
        size,
        min_profit_cents,
    );
    assert(after.offers =~= feed.offers + alone.offers);
}

/// One step of a message: what it does to the quotes of a state, it does to the
/// same quotes within a feed, with its opportunity behind those before.
proof fn lemma_step(
    feed: Feed,
    whole: Feed,
    alone: Feed,
    first: GlobalState,
    before: GlobalState,
    requests: Seq<ExecutionRequest>,
    request: Option<ExecutionRequest>,
    now_ns: u64,
)
    requires
        same_but_quotes(before, first),
        are_requests_for(requests, first, feed.offers, now_ns),
        whole.quotes == alone.quotes,
        whole.offers == feed.offers + alone.offers,
        match request {
            Some(r) => alone.offers.len() == 1 && is_request_for(
                r,
                before.markets@[alone.offers[0].0],
                alone.offers[0].1,
                now_ns,
            ) && 0 <= alone.offers[0].0 < before.markets.len(),
            None => alone.offers.len() == 0,
        },
    ensures
        are_requests_for(
            match request {
                Some(r) => requests.push(r),
                None => requests,
            },
            first,
            whole.offers,
            now_ns,
        ),
{
    let all = match request {
        Some(r) => requests.push(r),
        None => requests,
    };
    assert forall|i: int| 0 <= i < all.len() implies is_request_for(
        #[trigger] all[i],
        first.markets@[whole.offers[i].0],
        whole.offers[i].1,
        now_ns,
    ) by {
        if i < requests.len() {
            assert(all[i] == requests[i]);
            assert(whole.offers[i] == feed.offers[i]);
        } else {
            assert(whole.offers[i] == alone.offers[0]);
        }
    }
}

/// Takes in some order books. Returns what is to be bought, in the order in
/// which it became worth it.
#[verifier::rlimit(30)]
pub fn process_books<Q: Quantity>(
    state: &mut GlobalState,
    books: &Vec<BookSnapshot>,
    min_profit_cents: i16,
    now_ns: u64,
) -> (r: Vec<ExecutionRequest>)
    requires
        old(state).wf(),
        books_fit::<Q>(feed_of(*old(state)), *old(state), books@, min_profit_cents),
    ensures
        final(state).wf(),
        same_but_quotes(*final(state), *old(state)),
        holds_feed_prices(*old(state)) ==> holds_feed_prices(*final(state)),
        ({
            let after = after_books::<Q>(
                feed_of(*old(state)),
                *old(state),
                books@,
                min_profit_cents,
                books.len() as int,
            );
            &&& all_quotes(final(state).markets@) == after.quotes
            &&& are_requests_for(r@, *old(state), after.offers, now_ns)
        }),
{
    let ghost first = *state;
    let mut requests: Vec<ExecutionRequest> = Vec::new();
    let mut i: usize = 0;
    while i < books.len()
        invariant
            first == *old(state),
            i <= books.len(),
            state.wf(),
            first.wf(),
            books_fit::<Q>(feed_of(first), first, books@, min_profit_cents),
            same_but_quotes(*state, first),
            ({
                let feed = after_books::<Q>(
                    feed_of(first),
                    first,
                    books@,
                    min_profit_cents,
                    i as int,
                );
                &&& all_quotes(state.markets@) == feed.quotes
                &&& are_requests_for(requests@, first, feed.offers, now_ns)
            }),
        decreases books.len() - i,
    {
        let ghost before = *state;
        let ghost feed = after_books::<Q>(
            feed_of(first),
            first,
            books@,
            min_profit_cents,
            i as int,
        );
        let found: Option<ExecutionRequest> = process_book::<Q>(
            state,
            &books[i],
            min_profit_cents,
            now_ns,
        );
        proof {
            let best = best_ask::<Q>(books@[i as int].asks@);
            let place = first.token_lookup(books@[i as int].asset_id@);
            assert(before.token_lookup(books@[i as int].asset_id@) == place);
            lemma_offers_add_up(feed, place, best.0, best.1, min_profit_cents);
            let whole = after_book::<Q>(feed, first, books@[i as int], min_profit_cents);
            let alone = after_book::<Q>(feed_of(before), before, books@[i as int], min_profit_cents);
            lemma_step(feed, whole, alone, first, before, requests@, found, now_ns);
        }
        match found {
            Some(request) => {
                requests.push(request);
            },
            None => {},
        }
        i = i + 1;
    }
    proof {
        if holds_feed_prices(first) {
            lemma_books_keep_feed_prices::<Q>(first, *state, books@, min_profit_cents);
        }
    }
    requests
}

#[verifier::rlimit(30)]
fn process_changes<Q: Quantity>(
    state: &mut GlobalState,
    changes: &Vec<PriceChangeItem>,
    min_profit_cents: i16,
    now_ns: u64,
) -> (r: Vec<ExecutionRequest>)
    requires
        old(state).wf(),
        changes_fit::<Q>(feed_of(*old(state)), *old(state), changes@, min_profit_cents),
    ensures
        final(state).wf(),
        same_but_quotes(*final(state), *old(state)),
        holds_feed_prices(*old(state)) ==> holds_feed_prices(*final(state)),
        ({
            let after = after_changes::<Q>(
                feed_of(*old(state)),
                *old(state),
                changes@,
                min_profit_cents,
                changes.len() as int,
            );
            &&& all_quotes(final(state).markets@) == after.quotes
            &&& are_requests_for(r@, *old(state), after.offers, now_ns)
        }),
{
    let ghost first = *state;
    let mut requests: Vec<ExecutionRequest> = Vec::new();
    let mut i: usize = 0;
    while i < changes.len()
        invariant
            first == *old(state),
            i <= changes.len(),
            state.wf(),
            first.wf(),
            changes_fit::<Q>(feed_of(first), first, changes@, min_profit_cents),
            same_but_quotes(*state, first),
            ({
                let feed = after_changes::<Q>(
                    feed_of(first),
                    first,
                    changes@,
                    min_profit_cents,
                    i as int,
                );
                &&& all_quotes(state.markets@) == feed.quotes
                &&& are_requests_for(requests@, first, feed.offers, now_ns)
            }),
        decreases changes.len() - i,
    {
        let ghost before = *state;
        let ghost feed = after_changes::<Q>(
            feed_of(first),
            first,
            changes@,
            min_profit_cents,
            i as int,
        );
        let found: Option<ExecutionRequest> = process_price_change::<Q>(
            state,
            &changes[i],
            min_profit_cents,
            now_ns,
        );
        proof {
            let change = changes@[i as int];
            let place = first.token_lookup(change.asset_id@);
            assert(before.token_lookup(change.asset_id@) == place);
            let whole = after_change::<Q>(feed, first, change, min_profit_cents);
            let alone = after_change::<Q>(feed_of(before), before, change, min_profit_cents);
            if change.price is Some && place is Some {
                let cents = types::price_of_text::<Q>(change.price.unwrap()@) as u16;
                let size = feed.quotes[place.unwrap().0 as int][place.unwrap().1 as int].ask_size;
                lemma_offers_add_up(feed, place, cents, size, min_profit_cents);
            }
            assert(whole.offers =~= feed.offers + alone.offers);
            lemma_step(feed, whole, alone, first, before, requests@, found, now_ns);
        }
        match found {
            Some(request) => {
                requests.push(request);
            },
            None => {},
        }
        i = i + 1;
    }
    proof {
        if holds_feed_prices(first) {
            lemma_changes_keep_feed_prices::<Q>(first, *state, changes@, min_profit_cents);
        }
    }
    requests
}

/// Takes in a message on changed prices. Returns what is to be bought, in the
/// order in which it became worth it.
pub fn process_event<Q: Quantity>(
    state: &mut GlobalState,
    event: &PriceChangeEvent,
    min_profit_cents: i16,
    now_ns: u64,
) -> (r: Vec<ExecutionRequest>)
    requires
        old(state).wf(),
        event_fits::<Q>(feed_of(*old(state)), *old(state), *event, min_profit_cents),
    ensures
        final(state).wf(),
        same_but_quotes(*final(state), *old(state)),
        holds_feed_prices(*old(state)) ==> holds_feed_prices(*final(state)),
        ({
            let after = after_event::<Q>(
                feed_of(*old(state)),
                *old(state),
                *event,
                min_profit_cents,
            );
            &&& all_quotes(final(state).markets@) == after.quotes
            &&& are_requests_for(r@, *old(state), after.offers, now_ns)
        }),
{
    let is_change: bool = match &event.event_type {
        Some(event_type) => text::same(event_type.as_str(), "price_change"),
        None => false,
    };
    if !is_change {
        return Vec::new();
    }
    match &event.price_changes {
        Some(changes) => process_changes::<Q>(state, changes, min_profit_cents, now_ns),
        None => Vec::new(),
    }
}

/// The tokens of all outcomes of some markets, in order.
pub open spec fn subscribed_tokens(markets: Seq<MultiOutcomeState>) -> Seq<String>
    decreases markets.len(),
{
    if markets.len() == 0 {
        Seq::empty()
    } else {
        subscribed_tokens(markets.drop_last()) + outcome_tokens(markets.last().outcomes@)
    }
}

/// The tokens that the feed is asked for: those of all outcomes.
pub fn subscription_tokens(state: &GlobalState) -> (r: Vec<String>)
    ensures
        r@ == subscribed_tokens(state.markets@),
{
    let mut tokens: Vec<String> = Vec::new();
    let mut i: usize = 0;
    assert(state.markets@.take(0) =~= Seq::empty());
    while i < state.markets.len()
        invariant
            i <= state.markets.len(),
            tokens@ == subscribed_tokens(state.markets@.take(i as int)),
        decreases state.markets.len() - i,
    {
        let market = &state.markets[i];
        let ghost so_far = tokens@;
        let ghost own = outcome_tokens(market.outcomes@);
        let mut j: usize = 0;
        assert(so_far + own.take(0) =~= so_far);
        while j < market.outcomes.len()
            invariant
                own == outcome_tokens(market.outcomes@),
                j <= market.outcomes.len(),
                tokens@ == so_far + own.take(j as int),
            decreases market.outcomes.len() - j,
        {
            tokens.push(market.outcomes[j].token_id.clone());
            assert(so_far + own.take(j + 1) =~= (so_far + own.take(j as int)).push(own[j as int]));
            j = j + 1;
        }
        assert(own.take(j as int) =~= own);
        assert(state.markets@.take(i + 1).drop_last() =~= state.markets@.take(i as int));
        i = i + 1;
    }
    assert(state.markets@.take(i as int) =~= state.markets@);
    tokens
}

// ---------------------------------------------------------------------------
// The connection
// ---------------------------------------------------------------------------

/// Seconds without a message after which the connection counts as dead.
pub const STALE_AFTER_SECS: u64 = 120;

/// Seconds after which the connection is made anew, so that new markets are
/// subscribed to: two market scans.
pub const REFRESH_AFTER_SECS: u64 = MARKET_SCAN_INTERVAL_SECS * 2;

/// Nanoseconds of a second.
pub const NANOS: u64 = 1_000_000_000;

/// What happens on a connection.
#[derive(Clone, Copy, Debug, PartialEq, Eq, Structural)]
pub enum FeedEvent {
    /// It is time for a ping.
    PingDue,
    /// A ping could not be sent.
    PingFailed,
    /// A text came.
    Text,
    /// The other side sent a ping.
    Ping,
    /// The other side answered a ping.
    Pong,
    /// The other side closed the connection.
    Closed,
    /// The connection failed.
    Failed,
    /// The connection ended.
    Ended,
    /// Anything else.
    Other,
}

/// What is to be done about it.
#[derive(Clone, Copy, Debug, PartialEq, Eq, Structural)]
pub enum FeedAction {
    /// Nothing.
    Wait,
    /// Send a ping.
    SendPing,
    /// Take in the text.
    ReadText,
    /// Answer the ping.
    SendPong,
    /// Give the connection up.
    Stop,
}

/// Why a running connection is made anew.
#[derive(Clone, Copy, Debug, PartialEq, Eq, Structural)]
pub enum FeedExpiry {
    /// New markets may be subscribed to.
    Refresh,
    /// Nothing came for too long.
    Stale,
}

/// A connection: when it was made, and when something last came.
#[derive(Clone, Copy, Debug, PartialEq, Eq, Structural)]
pub struct FeedConnection {
    pub started_ns: u64,
    pub last_message_ns: u64,
}

/// The action for an event.
pub open spec fn action_for(event: FeedEvent) -> FeedAction {
    match event {
        FeedEvent::PingDue => FeedAction::SendPing,
        FeedEvent::Text => FeedAction::ReadText,
        FeedEvent::Ping => FeedAction::SendPong,
        FeedEvent::Pong | FeedEvent::Other => FeedAction::Wait,
        FeedEvent::PingFailed | FeedEvent::Closed | FeedEvent::Failed | FeedEvent::Ended
            => FeedAction::Stop,
    }
}

/// Whether an event shows that the other side is there.
pub open spec fn is_sign_of_life(event: FeedEvent) -> bool {
    event is Text || event is Ping || event is Pong
}

impl FeedConnection {
    /// Why the connection is made anew at `now_ns`, if it is.
    pub open spec fn expiry(self, now_ns: u64) -> Option<FeedExpiry> {
        if now_ns - self.started_ns > REFRESH_AFTER_SECS * NANOS {
            Some(FeedExpiry::Refresh)
        } else if now_ns - self.last_message_ns > STALE_AFTER_SECS * NANOS {
            Some(FeedExpiry::Stale)
        } else {
            None
        }
    }

    /// A connection that was just made.
    pub fn new(now_ns: u64) -> (r: Self)
        ensures
            r == (FeedConnection { started_ns: now_ns, last_message_ns: now_ns }),
    {
        FeedConnection { started_ns: now_ns, last_message_ns: now_ns }
    }

    /// Takes in an event and says what to do about it.
    pub fn on_event(&mut self, event: FeedEvent, now_ns: u64) -> (r: FeedAction)
        ensures
            r == action_for(event),
            *final(self) == (FeedConnection {
                last_message_ns: if is_sign_of_life(event) {
                    now_ns
                } else {
                    old(self).last_message_ns
                },
                ..*old(self)
            }),
    {
        match event {
            FeedEvent::PingDue => FeedAction::SendPing,
            FeedEvent::Text => {
                self.last_message_ns = now_ns;
                FeedAction::ReadText
            },
            FeedEvent::Ping => {
                self.last_message_ns = now_ns;
                FeedAction::SendPong
            },
            FeedEvent::Pong => {
                self.last_message_ns = now_ns;
                FeedAction::Wait
            },
            FeedEvent::Other => FeedAction::Wait,
            FeedEvent::PingFailed => FeedAction::Stop,
            FeedEvent::Closed => FeedAction::Stop,
            FeedEvent::Failed => FeedAction::Stop,
            FeedEvent::Ended => FeedAction::Stop,
        }
    }

    /// Whether the connection is made anew at `now_ns`, and why.
    pub fn check_expiry(&self, now_ns: u64) -> (r: Option<FeedExpiry>)
        ensures
            r == self.expiry(now_ns),
    {
        if now_ns.saturating_sub(self.started_ns) > REFRESH_AFTER_SECS * NANOS {
            Some(FeedExpiry::Refresh)
        } else if now_ns.saturating_sub(self.last_message_ns) > STALE_AFTER_SECS * NANOS {
            Some(FeedExpiry::Stale)
        } else {
            None
        }
    }
}

// ---------------------------------------------------------------------------
// Laws
// ---------------------------------------------------------------------------

/// The best ask is a level with a price, the first of those that no other
/// undercuts; without any such level there is no ask.
pub proof fn law_best_ask<Q: Quantity>(asks: Seq<PriceLevel>)
    ensures
        ({
            let best = best_ask::<Q>(asks);
            &&& best.0 == 0 ==> best.1 == 0 && forall|i: int|
                0 <= i < asks.len() ==> level_of::<Q>(#[trigger] asks[i]).0 == 0
            &&& best.0 > 0 ==> exists|i: int|
                {
                    &&& 0 <= i < asks.len()
                    &&& level_of::<Q>(#[trigger] asks[i]) == best
                    &&& forall|j: int|
                        0 <= j < i && level_of::<Q>(#[trigger] asks[j]).0 > 0 ==> level_of::<Q>(
                            asks[j],
                        ).0 > best.0
                    &&& forall|j: int|
                        0 <= j < asks.len() && level_of::<Q>(#[trigger] asks[j]).0 > 0
                            ==> level_of::<Q>(asks[j]).0 >= best.0
                }
        }),
    decreases asks.len(),
{
    if asks.len() > 0 {
        let front = asks.drop_last();
        law_best_ask::<Q>(front);
        let best = best_ask::<Q>(front);
        let last = level_of::<Q>(asks.last());
        assert forall|j: int| 0 <= j < front.len() implies #[trigger] asks[j] == front[j] by {}
        if last.0 > 0 && (best.0 == 0 || last.0 < best.0) {
            assert(level_of::<Q>(asks[asks.len() - 1]) == last);
        } else if best.0 > 0 {
            let i = choose|i: int|
                {
                    &&& 0 <= i < front.len()
                    &&& level_of::<Q>(#[trigger] front[i]) == best
                    &&& forall|j: int|
                        0 <= j < i && level_of::<Q>(#[trigger] front[j]).0 > 0 ==> level_of::<Q>(
                            front[j],
                        ).0 > best.0
                    &&& forall|j: int|
                        0 <= j < front.len() && level_of::<Q>(#[trigger] front[j]).0 > 0
                            ==> level_of::<Q>(front[j]).0 >= best.0
                };
            assert(level_of::<Q>(asks[i]) == best);
        }
    }
}

/// Where at least a cent of profit is asked for, every opportunity is one: all
/// outcomes have a price, and together they cost less than the dollar that one
/// of them pays.
pub proof fn law_offer_costs_less_than_a_dollar(quotes: Seq<Quote>, min_profit_cents: i16)
    requires
        is_worth(quotes, min_profit_cents),
        min_profit_cents > 0,
        seqs::total(quoted_prices(quotes)) <= i16::MAX,
    ensures
        0 <= seqs::total(quoted_prices(quotes)) < 100,
        seqs::total(quoted_prices(quotes)) + types::profit_of(seqs::total(quoted_prices(quotes)))
            == 100,
        forall|i: int| 0 <= i < quotes.len() ==> (#[trigger] quotes[i]).ask_price > 0,
{
    seqs::lemma_total_nonnegative(quoted_prices(quotes));
}

/// The same order book a second time changes no quote any more.
pub proof fn law_book_twice_is_once<Q: Quantity>(
    feed: Feed,
    state: GlobalState,
    book: BookSnapshot,
    min_profit_cents: i16,
)
    requires
        state.wf(),
        feed.quotes == all_quotes(state.markets@),
    ensures
        ({
            let once = after_book::<Q>(feed, state, book, min_profit_cents);
            after_book::<Q>(once, state, book, min_profit_cents).quotes == once.quotes
        }),
{
    let once = after_book::<Q>(feed, state, book, min_profit_cents);
    let twice = after_book::<Q>(once, state, book, min_profit_cents);
    match state.token_lookup(book.asset_id@) {
        Some((market, outcome)) => {
            let m = market as int;
            assert(feed.quotes[m] == quotes_of(state.markets@[m]));
            assert(twice.quotes[m] =~= once.quotes[m]);
            assert(twice.quotes =~= once.quotes);
        },
        None => {},
    }
}

/// Markets as they enter hold prices of the feed: they have none yet.
pub proof fn law_fresh_market_holds_feed_prices(
    market: MultiOutcomeState,
    market_id: u16,
    condition_id: Seq<char>,
    question: Seq<char>,
    outcomes: Seq<(String, String)>,
)
    requires
        market.is_fresh(market_id, condition_id, question, outcomes),
        99 * outcomes.len() <= i16::MAX,
    ensures
        are_feed_prices(quotes_of(market)),
{
}

/// Prices of the feed keep the profit of a market within 16 bits.
pub proof fn law_feed_prices_fit_market(quotes: Seq<Quote>)
    requires
        are_feed_prices(quotes),
    ensures
        profit_in_range(quotes),
{
    seqs::lemma_total_bound(quoted_prices(quotes), 99);
}

/// While prices come from the feed, every profit is within range.
pub proof fn law_feed_prices_fit(state: GlobalState)
    requires
        holds_feed_prices(state),
    ensures
        state.profits_fit(),
{
    assert forall|i: int|
        0 <= i < state.markets.len() && (
        #[trigger] state.markets@[i]).is_priced() implies types::profit_fits(
        state.markets@[i].ask_sum(),
    ) by {
        lemma_quotes(state.markets@[i]);
        assert(are_feed_prices(quotes_of(state.markets@[i])));
        law_feed_prices_fit_market(quotes_of(state.markets@[i]));
    }
}

/// Whether a feed has a quote for every outcome of a state, and all of them are
/// prices of the feed.
pub open spec fn is_priced_by_feed(feed: Feed, state: GlobalState) -> bool {
    &&& feed.quotes.len() == state.markets.len()
    &&& forall|i: int|
        0 <= i < feed.quotes.len() ==> are_feed_prices(#[trigger] feed.quotes[i])
            && feed.quotes[i].len() == state.markets@[i].books.len()
}

proof fn lemma_best_ask_is_feed_price<Q: Quantity>(asks: Seq<PriceLevel>)
    ensures
        best_ask::<Q>(asks).0 <= 99,
    decreases asks.len(),
{
    if asks.len() > 0 {
        lemma_best_ask_is_feed_price::<Q>(asks.drop_last());
    }
}

proof fn lemma_feed_ask_fits(
    feed: Feed,
    state: GlobalState,
    token: Seq<char>,
    price: u16,
    size: u16,
    min_profit_cents: i16,
)
    requires
        state.wf(),
        is_priced_by_feed(feed, state),
        price <= 99,
    ensures
        ask_fits(feed, state.token_lookup(token), price, size),
        is_priced_by_feed(
            after_ask(feed, state.token_lookup(token), price, size, min_profit_cents),
            state,
        ),
{
    let place = state.token_lookup(token);
    match place {
        Some((market, outcome)) => {
            let m = market as int;
            let after = after_ask(feed, place, price, size, min_profit_cents);
            assert(are_feed_prices(feed.quotes[m]));
            assert(are_feed_prices(after.quotes[m]));
            law_feed_prices_fit_market(after.quotes[m]);
            assert(after.quotes == after_ask(feed, place, price, size, 0).quotes);
        },
        None => {},
    }
}

proof fn lemma_feed_book_fits<Q: Quantity>(
    feed: Feed,
    state: GlobalState,
    book: BookSnapshot,
    min_profit_cents: i16,
)
    requires
        state.wf(),
        is_priced_by_feed(feed, state),
    ensures
        book_fits::<Q>(feed, state, book),
        is_priced_by_feed(after_book::<Q>(feed, state, book, min_profit_cents), state),
{
    let best = best_ask::<Q>(book.asks@);
    lemma_best_ask_is_feed_price::<Q>(book.asks@);
    lemma_feed_ask_fits(feed, state, book.asset_id@, best.0, best.1, min_profit_cents);
}

proof fn lemma_feed_change_fits<Q: Quantity>(
    feed: Feed,
    state: GlobalState,
    change: PriceChangeItem,
    min_profit_cents: i16,
)
    requires
        state.wf(),
        is_priced_by_feed(feed, state),
    ensures
        change_fits::<Q>(feed, state, change),
        is_priced_by_feed(after_change::<Q>(feed, state, change, min_profit_cents), state),
{
    let place = state.token_lookup(change.asset_id@);
    if change.price is Some && place is Some {
        let cents = types::price_of_text::<Q>(change.price.unwrap()@) as u16;
        let size = feed.quotes[place.unwrap().0 as int][place.unwrap().1 as int].ask_size;
        lemma_feed_ask_fits(feed, state, change.asset_id@, cents, size, min_profit_cents);
    }
}

/// From prices of the feed, order books lead to prices of the feed, and to no
/// profit out of range.
pub proof fn law_feed_prices_fit_books<Q: Quantity>(
    feed: Feed,
    state: GlobalState,
    books: Seq<BookSnapshot>,
    min_profit_cents: i16,
    n: int,
)
    requires
        state.wf(),
        is_priced_by_feed(feed, state),
        0 <= n <= books.len(),
    ensures
        is_priced_by_feed(after_books::<Q>(feed, state, books, min_profit_cents, n), state),
        forall|i: int|
            0 <= i < n ==> book_fits::<Q>(
                after_books::<Q>(feed, state, books, min_profit_cents, i),
                state,
                #[trigger] books[i],
            ),
    decreases n,
{
    if n > 0 {
        law_feed_prices_fit_books::<Q>(feed, state, books, min_profit_cents, n - 1);
        let before = after_books::<Q>(feed, state, books, min_profit_cents, n - 1);
        let book = books[n - 1];
        lemma_feed_book_fits::<Q>(before, state, book, min_profit_cents);
        assert forall|i: int| 0 <= i < n implies book_fits::<Q>(
            after_books::<Q>(feed, state, books, min_profit_cents, i),
            state,
            #[trigger] books[i],
        ) by {
            if i == n - 1 {
                assert(book_fits::<Q>(before, state, book));
            }
        }
    }
}

/// The same of changed prices.
pub proof fn law_feed_prices_fit_changes<Q: Quantity>(
    feed: Feed,
    state: GlobalState,
    changes: Seq<PriceChangeItem>,
    min_profit_cents: i16,
    n: int,
)
    requires
        state.wf(),
        is_priced_by_feed(feed, state),
        0 <= n <= changes.len(),
    ensures
        is_priced_by_feed(after_changes::<Q>(feed, state, changes, min_profit_cents, n), state),
        forall|i: int|
            0 <= i < n ==> change_fits::<Q>(
                after_changes::<Q>(feed, state, changes, min_profit_cents, i),
                state,
                #[trigger] changes[i],
            ),
    decreases n,
{
    if n > 0 {
        law_feed_prices_fit_changes::<Q>(feed, state, changes, min_profit_cents, n - 1);
        let before = after_changes::<Q>(feed, state, changes, min_profit_cents, n - 1);
        let change = changes[n - 1];
        lemma_feed_change_fits::<Q>(before, state, change, min_profit_cents);
        assert forall|i: int| 0 <= i < n implies change_fits::<Q>(
            after_changes::<Q>(feed, state, changes, min_profit_cents, i),
            state,
            #[trigger] changes[i],
        ) by {
            if i == n - 1 {
                assert(change_fits::<Q>(before, state, change));
            }
        }
    }
}

/// The quotes of a state that holds prices of the feed are priced by it, and
/// the other way round.
pub proof fn law_feed_of_state(state: GlobalState)
    ensures
        is_priced_by_feed(feed_of(state), state) == holds_feed_prices(state),
{
    let feed = feed_of(state);
    if is_priced_by_feed(feed, state) {
        assert forall|i: int| 0 <= i < state.markets.len() implies are_feed_prices(
            quotes_of(#[trigger] state.markets@[i]),
        ) by {
            assert(feed.quotes[i] == quotes_of(state.markets@[i]));
        }
    }
}

proof fn lemma_quotes_keep_feed_prices(before: GlobalState, after: GlobalState, feed: Feed)
    requires
        is_priced_by_feed(feed, before),
        feed.quotes == all_quotes(after.markets@),
        after.markets.len() == before.markets.len(),
    ensures
        holds_feed_prices(after),
{
    assert forall|i: int| 0 <= i < after.markets.len() implies are_feed_prices(
        quotes_of(#[trigger] after.markets@[i]),
    ) by {
        assert(feed.quotes[i] == quotes_of(after.markets@[i]));
    }
}

proof fn lemma_books_keep_feed_prices<Q: Quantity>(
    before: GlobalState,
    after: GlobalState,
    books: Seq<BookSnapshot>,
    min_profit_cents: i16,
)
    requires
        before.wf(),
        holds_feed_prices(before),
        after.markets.len() == before.markets.len(),
        all_quotes(after.markets@) == after_books::<Q>(
            feed_of(before),
            before,
            books,
            min_profit_cents,
            books.len() as int,
        ).quotes,
    ensures
        holds_feed_prices(after),
{
    let n = books.len() as int;
    let feed = after_books::<Q>(feed_of(before), before, books, min_profit_cents, n);
    law_feed_of_state(before);
    law_feed_prices_fit_books::<Q>(feed_of(before), before, books, min_profit_cents, n);
    lemma_quotes_keep_feed_prices(before, after, feed);
}

proof fn lemma_changes_keep_feed_prices<Q: Quantity>(
    before: GlobalState,
    after: GlobalState,
    changes: Seq<PriceChangeItem>,
    min_profit_cents: i16,
)
    requires
        before.wf(),
        holds_feed_prices(before),
        after.markets.len() == before.markets.len(),
        all_quotes(after.markets@) == after_changes::<Q>(
            feed_of(before),
            before,
            changes,
            min_profit_cents,
            changes.len() as int,
        ).quotes,
    ensures
        holds_feed_prices(after),
{
    let n = changes.len() as int;
    let feed = after_changes::<Q>(feed_of(before), before, changes, min_profit_cents, n);
    law_feed_of_state(before);
    law_feed_prices_fit_changes::<Q>(feed_of(before), before, changes, min_profit_cents, n);
    lemma_quotes_keep_feed_prices(before, after, feed);
}

/// A connection on which nothing came for two minutes is not kept, nor is one
/// that is older than two market scans.
pub proof fn law_connection_expires(connection: FeedConnection, now_ns: u64)
    ensures
        now_ns - connection.last_message_ns > STALE_AFTER_SECS * NANOS ==> connection.expiry(
            now_ns,
        ) is Some,
        now_ns - connection.started_ns > REFRESH_AFTER_SECS * NANOS ==> connection.expiry(
            now_ns,
        ) is Some,
{
}

/// Every opportunity is asked for, whatever the number of outcomes: after an ask
/// for an outcome, its market is the next opportunity exactly where each of its
/// outcomes has an ask and all of them are at least the wanted profit below a
/// dollar. Nothing but that ask changes.
pub proof fn law_every_opportunity_is_asked_for(
    feed: Feed,
    market: u16,
    outcome: usize,
    price: u16,
    size: u16,
    min_profit_cents: i16,
)
    requires
        market < feed.quotes.len(),
        outcome < feed.quotes[market as int].len(),
    ensures
        ({
            let after = after_ask(feed, Some((market, outcome)), price, size, min_profit_cents);
            let m = market as int;
            let o = outcome as int;
            let quotes = after.quotes[m];
            let sum = seqs::total(quotes.map_values(|q: Quote| q.ask_price));
            let offered = (forall|i: int|
                0 <= i < quotes.len() ==> (#[trigger] quotes[i]).ask_price != 0) && 100 - sum
                >= min_profit_cents;
            &&& after.quotes.len() == feed.quotes.len()
            &&& quotes.len() == feed.quotes[m].len()
            &&& quotes[o].ask_price == price
            &&& quotes[o].ask_size == size
            &&& quotes[o].bid_price == feed.quotes[m][o].bid_price
            &&& quotes[o].bid_size == feed.quotes[m][o].bid_size
            &&& forall|i: int|
                0 <= i < quotes.len() && i != o ==> #[trigger] quotes[i] == feed.quotes[m][i]
            &&& forall|i: int|
                0 <= i < feed.quotes.len() && i != m ==> #[trigger] after.quotes[i]
                    == feed.quotes[i]
            &&& sum <= i16::MAX ==> after.offers == (if offered {
                feed.offers.push((m, quotes))
            } else {
                feed.offers
            })
        }),
{
    let after = after_ask(feed, Some((market, outcome)), price, size, min_profit_cents);
    let quotes = after.quotes[market as int];
    let prices = quotes.map_values(|q: Quote| q.ask_price);
    assert(quoted_prices(quotes) =~= prices);
    seqs::lemma_total_nonnegative(prices);
}

/// An ask for a token that leads nowhere changes nothing.
pub proof fn law_unknown_token_is_passed_over(
    feed: Feed,
    price: u16,
    size: u16,
    min_profit_cents: i16,
)
    ensures
        after_ask(feed, None, price, size, min_profit_cents) == feed,
{
}

/// An order book quotes its best ask for the outcome of its token.
pub proof fn law_book_quotes_its_best_ask<Q: Quantity>(
    feed: Feed,
    state: GlobalState,
    book: BookSnapshot,
    min_profit_cents: i16,
    market: u16,
    outcome: usize,
)
    requires
        state.token_lookup(book.asset_id@) == Some((market, outcome)),
        market < feed.quotes.len(),
        outcome < feed.quotes[market as int].len(),
    ensures
        ({
            let after = after_book::<Q>(feed, state, book, min_profit_cents);
            let quote = after.quotes[market as int][outcome as int];
            &&& (quote.ask_price, quote.ask_size) == best_ask::<Q>(book.asks@)
            &&& after == after_ask(
                feed,
                Some((market, outcome)),
                best_ask::<Q>(book.asks@).0,
                best_ask::<Q>(book.asks@).1,
                min_profit_cents,
            )
        }),
{
}

/// A changed price counts for asks alone: it becomes the ask price of its
/// outcome, the size stays, and a bid, a missing price or a price of nothing
/// changes nothing.
pub proof fn law_changed_price_counts_for_asks<Q: Quantity>(
    feed: Feed,
    state: GlobalState,
    change: PriceChangeItem,
    min_profit_cents: i16,
)
    ensures
        ({
            let after = after_change::<Q>(feed, state, change, min_profit_cents);
            let place = state.token_lookup(change.asset_id@);
            let asked = change.side matches Some(side) && (side@ == "ASK"@ || side@ == "ask"@);
            let cents = types::price_of_text::<Q>(change.price.unwrap()@) as u16;
            &&& !asked || change.price is None || cents == 0 || place is None ==> after == feed
            &&& asked && change.price is Some && cents != 0 && place is Some ==> {
                let (market, outcome) = place.unwrap();
                after == after_ask(
                    feed,
                    place,
                    cents,
                    feed.quotes[market as int][outcome as int].ask_size,
                    min_profit_cents,
                )
            }
        }),
{
}

/// Messages count one after the other, from the first to the last; only messages
/// on changed prices change prices.
pub proof fn law_messages_count_in_order<Q: Quantity>(
    feed: Feed,
    state: GlobalState,
    books: Seq<BookSnapshot>,
    changes: Seq<PriceChangeItem>,
    event: PriceChangeEvent,
    min_profit_cents: i16,
    n: int,
)
    requires
        0 < n,
    ensures
        after_books::<Q>(feed, state, books, min_profit_cents, 0) == feed,
        after_books::<Q>(feed, state, books, min_profit_cents, n) == after_book::<Q>(
            after_books::<Q>(feed, state, books, min_profit_cents, n - 1),
            state,
            books[n - 1],
            min_profit_cents,
        ),
        after_changes::<Q>(feed, state, changes, min_profit_cents, 0) == feed,
        after_changes::<Q>(feed, state, changes, min_profit_cents, n) == after_change::<Q>(
            after_changes::<Q>(feed, state, changes, min_profit_cents, n - 1),
            state,
            changes[n - 1],
            min_profit_cents,
        ),
        event.event_type is None || event.price_changes is None || event.event_type.unwrap()@
            != "price_change"@ ==> after_event::<Q>(feed, state, event, min_profit_cents) == feed,
        event.event_type is Some && event.price_changes is Some && event.event_type.unwrap()@
            == "price_change"@ ==> after_event::<Q>(feed, state, event, min_profit_cents)
            == after_changes::<Q>(
            feed,
            state,
            event.price_changes.unwrap()@,
            min_profit_cents,
            event.price_changes.unwrap().len() as int,
        ),
{
}

/// A request asks for every outcome of its market, at the price and size of its
/// quote, and expects what is left of a dollar.
pub proof fn law_request_is_for_every_outcome(
    request: ExecutionRequest,
    market: MultiOutcomeState,
    quotes: Seq<Quote>,
    now_ns: u64,
    i: int,
)
    requires
        is_request_for(request, market, quotes, now_ns),
        0 <= i < quotes.len(),
        quotes.len() == market.outcomes.len(),
        seqs::total(quotes.map_values(|q: Quote| q.ask_price)) <= i16::MAX,
    ensures
        request.market_id == market.market_id,
        request.condition_id == market.condition_id,
        request.ask_prices.len() == quotes.len(),
        request.ask_sizes.len() == quotes.len(),
        request.token_ids.len() == quotes.len(),
        request.ask_prices@[i] == quotes[i].ask_price,
        request.ask_sizes@[i] == quotes[i].ask_size,
        request.token_ids@[i] == market.outcomes@[i].token_id,
        request.expected_profit_cents + seqs::total(quotes.map_values(|q: Quote| q.ask_price))
            == 100,
        request.arb_type is Binary <==> market.outcome_count == 2,
        request.detected_ns == now_ns,
{
    let prices = quotes.map_values(|q: Quote| q.ask_price);
    assert(quoted_prices(quotes) =~= prices);
    seqs::lemma_total_nonnegative(prices);
    assert(request.token_ids@.len() == outcome_tokens(market.outcomes@).len());
    assert(outcome_tokens(market.outcomes@)[i] == market.outcomes@[i].token_id);
}

/// The feed is asked for the tokens of all outcomes, and for no others.
pub proof fn law_feed_is_asked_for_all_tokens(markets: Seq<MultiOutcomeState>, token: String)
    ensures
        subscribed_tokens(markets).contains(token) <==> exists|i: int, j: int|
            0 <= i < markets.len() && 0 <= j < markets[i].outcomes.len()
                && #[trigger] markets[i].outcomes@[j].token_id == token,
    decreases markets.len(),
{
    if markets.len() > 0 {
        let front = markets.drop_last();
        let own = outcome_tokens(markets.last().outcomes@);
        let all = subscribed_tokens(markets);
        let first = subscribed_tokens(front);
        law_feed_is_asked_for_all_tokens(front, token);
        if all.contains(token) {
            let k = choose|k: int| 0 <= k < all.len() && all[k] == token;
            if k < first.len() {
                assert(first[k] == token);
                let (i, j) = choose|i: int, j: int|
                    0 <= i < front.len() && 0 <= j < front[i].outcomes.len()
                        && #[trigger] front[i].outcomes@[j].token_id == token;
                assert(markets[i].outcomes@[j].token_id == token);
            } else {
                assert(own[k - first.len()] == token);
                assert(markets[markets.len() - 1].outcomes@[k - first.len()].token_id == token);
            }
        }
        if exists|i: int, j: int|
            0 <= i < markets.len() && 0 <= j < markets[i].outcomes.len()
                && #[trigger] markets[i].outcomes@[j].token_id == token {
            let (i, j) = choose|i: int, j: int|
                0 <= i < markets.len() && 0 <= j < markets[i].outcomes.len()
                    && #[trigger] markets[i].outcomes@[j].token_id == token;
            if i < front.len() {
                assert(front[i].outcomes@[j].token_id == token);
                let k = choose|k: int| 0 <= k < first.len() && first[k] == token;
                assert(all[k] == token);
            } else {
                assert(own[j] == token);
                assert(all[first.len() + j] == token);
            }
        }
    }
}

/// A connection is kept for as long as something came in the last two minutes and
/// it is no older than two market scans; its age is looked at first.
pub proof fn law_connection_is_kept(connection: FeedConnection, now_ns: u64)
    ensures
        connection.expiry(now_ns) is None <==> now_ns - connection.last_message_ns
            <= 120_000_000_000 && now_ns - connection.started_ns <= REFRESH_AFTER_SECS * NANOS,
        connection.expiry(now_ns) == Some(FeedExpiry::Refresh) <==> now_ns - connection.started_ns
            > REFRESH_AFTER_SECS * NANOS,
{
}

/// Texts are read, pings answered and due pings sent; a connection is given up
/// exactly where it failed or ended. Texts, pings and their answers show that the
/// other side is there.
pub proof fn law_events_have_their_action(event: FeedEvent)
    ensures
        action_for(event) is ReadText <==> event is Text,
        action_for(event) is SendPong <==> event is Ping,
        action_for(event) is SendPing <==> event is PingDue,
        action_for(event) is Stop <==> event is PingFailed || event is Closed || event is Failed
            || event is Ended,
        is_sign_of_life(event) <==> event is Text || event is Ping || event is Pong,
{
}

} // verus!
