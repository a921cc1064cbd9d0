//! Scanning, events and the price feed.

use polymarket_arb::config::MarketCategory;
use polymarket_arb::event_detector::{ArbEvent, EventCounts, EventDetector};
use polymarket_arb::gamma::GammaMarket;
use polymarket_arb::market_scanner::{
    MarketScanner, MissingField, Outcome, ScannerStats, SkipReason, TrackedMarket,
};
use polymarket_arb::polymarket::{
    find_best_ask, market_url, markets_url, process_book, process_books, process_event,
    process_price_change, quote_place, subscription_tokens, BookSnapshot, FeedAction, FeedConnection, FeedEvent,
    FeedExpiry, PriceChangeEvent, PriceChangeItem, PriceLevel,
};
use polymarket_arb::quantity::{Decimal, Quantity};
use polymarket_arb::timestamp::Timestamp;
use polymarket_arb::types::{ArbType, GlobalState};

fn d(s: &str) -> Decimal {
    Decimal::parse(s).unwrap()
}

/// 2025-01-01T00:00:00Z.
const NOW: Timestamp = Timestamp { secs: 1_735_689_600, nanos: 0 };

fn later(secs: i64) -> Timestamp {
    Timestamp { secs: NOW.secs + secs, nanos: 0 }
}

fn listed(id: &str) -> GammaMarket {
    GammaMarket {
        condition_id: Some(id.to_string()),
        question: Some("Who wins the cup?".to_string()),
        slug: Some("cup".to_string()),
        outcomes: Some(r#"["Yes","No"]"#.to_string()),
        outcome_prices: Some(r#"["0.45","0.52"]"#.to_string()),
        clob_token_ids: Some(format!(r#"["{}-y","{}-n"]"#, id, id)),
        volume: Some("100000".to_string()),
        liquidity: Some("10000".to_string()),
        start_date: Some("2024-12-31T12:00:00Z".to_string()),
        end_date: Some("2025-01-11T00:00:00Z".to_string()),
        active: Some(true),
        closed: Some(false),
        tags: Some(vec!["Soccer".to_string()]),
    }
}

fn skip(market: &GammaMarket) -> SkipReason {
    MarketScanner::<Decimal>::process_market_with_reason(market, NOW).err().unwrap()
}

#[test]
fn a_listed_market_is_taken_up_as_it_is() {
    let m = MarketScanner::<Decimal>::process_market_with_reason(&listed("c1"), NOW).ok().unwrap();
    assert_eq!(m.condition_id, "c1");
    assert_eq!(m.question, "Who wins the cup?");
    assert_eq!(m.slug, "cup");
    assert_eq!(m.outcomes.len(), 2);
    assert_eq!(m.outcomes[1].name, "No");
    assert_eq!(m.outcomes[1].token_id, "c1-n");
    assert_eq!(m.outcomes[1].ask_price, d("0.52"));
    assert_eq!(m.outcomes[1].ask_size, d("0"));
    assert_eq!(m.volume_usd, d("100000"));
    assert_eq!(m.liquidity_usd, d("10000"));
    assert_eq!(m.created_at, Some(later(-12 * 3600)));
    assert_eq!(m.end_date, Some(later(10 * 86_400)));
    assert_eq!(m.category, MarketCategory::Sports);
    assert!(m.active && !m.closed && m.is_new);
    assert_eq!(m.last_updated, NOW);
    assert_eq!(m.tags, vec!["Soccer".to_string()]);
    assert_eq!(m.potential_profit_cents(), 3);
    assert!(m.has_sufficient_liquidity(d("0")));
    assert!(!m.has_sufficient_liquidity(d("1")));
}

#[test]
fn every_filter_has_its_reason() {
    let m = |f: &dyn Fn(&mut GammaMarket)| {
        let mut market = listed("c1");
        f(&mut market);
        skip(&market)
    };
    assert_eq!(m(&|g| g.condition_id = None), SkipReason::NoConditionId);
    assert_eq!(m(&|g| g.question = None), SkipReason::NoQuestion);
    assert_eq!(
        m(&|g| g.question = Some("Weather in May?".to_string())),
        SkipReason::KeywordFilter
    );
    assert_eq!(m(&|g| g.outcomes = None), SkipReason::NoOutcomes);
    assert_eq!(m(&|g| g.outcomes = Some("[1]".to_string())), SkipReason::OutcomesParseFail);
    assert_eq!(m(&|g| g.outcomes = Some("[]".to_string())), SkipReason::EmptyOutcomes);
    assert_eq!(m(&|g| g.outcomes = Some(r#"["A"]"#.to_string())), SkipReason::TooFewOutcomes);
    let nine = r#"["1","2","3","4","5","6","7","8","9"]"#;
    assert_eq!(m(&|g| g.outcomes = Some(nine.to_string())), SkipReason::TooManyOutcomes);
    assert_eq!(m(&|g| g.clob_token_ids = Some("{".to_string())), SkipReason::TokenParseFail);
    assert_eq!(m(&|g| g.clob_token_ids = None), SkipReason::TokenOutcomeMismatch);
    assert_eq!(m(&|g| g.volume = Some("49999.99".to_string())), SkipReason::LowVolume);
    assert_eq!(m(&|g| g.volume = Some("50000".to_string())), SkipReason::LowVolume);
    assert_eq!(m(&|g| g.volume = None), SkipReason::LowVolume);
    assert_eq!(
        m(&|g| g.end_date = Some("2024-12-30T00:00:00Z".to_string())),
        SkipReason::Expired
    );
    assert_eq!(
        m(&|g| g.end_date = Some("2025-02-01T00:00:00Z".to_string())),
        SkipReason::TooFarExpiry
    );
    assert_eq!(
        m(&|g| g.end_date = Some("2025-01-31T00:00:00Z".to_string())),
        SkipReason::TooFarExpiry
    );
    assert_eq!(
        m(&|g| g.end_date = Some("2025-01-31T12:00:00Z".to_string())),
        SkipReason::TooFarExpiry
    );
    assert_eq!(
        m(&|g| g.question = Some("Who wins the 2031 election?".to_string())),
        SkipReason::KeywordFilter
    );
    assert_eq!(m(&|g| g.tags = None), SkipReason::CategoryDisabled);
    assert_eq!(SkipReason::TooFarExpiry.name(), "too_far_expiry");
}

#[test]
fn filters_admit_their_bounds() {
    let mut m = listed("c1");
    m.volume = Some("50000.01".to_string());
    m.end_date = Some("2025-01-30T23:59:59Z".to_string());
    m.start_date = Some("2024-12-31T00:00:00Z".to_string());
    m.outcome_prices = Some("oops".to_string());
    m.active = None;
    m.closed = None;
    m.slug = None;
    let taken = MarketScanner::<Decimal>::process_market_with_reason(&m, NOW).ok().unwrap();
    assert!(!taken.is_new);
    assert!(!taken.active && taken.closed);
    assert_eq!(taken.slug, "");
    assert_eq!(taken.outcomes[0].ask_price, d("0"));
}

#[test]
fn a_missing_field_is_an_error_and_a_filter_is_none() {
    let mut m = listed("c1");
    assert!(matches!(MarketScanner::<Decimal>::process_market(&m, NOW), Ok(Some(_))));
    m.tags = None;
    assert!(matches!(MarketScanner::<Decimal>::process_market(&m, NOW), Ok(None)));
    m.outcomes = None;
    assert!(matches!(
        MarketScanner::<Decimal>::process_market(&m, NOW),
        Err(MissingField::Outcomes)
    ));
    m.question = None;
    assert!(matches!(
        MarketScanner::<Decimal>::process_market(&m, NOW),
        Err(MissingField::Question)
    ));
    m.condition_id = None;
    assert!(matches!(
        MarketScanner::<Decimal>::process_market(&m, NOW),
        Err(MissingField::ConditionId)
    ));
}

#[test]
fn a_second_scan_replaces_markets_in_place() {
    let mut scanner: MarketScanner<Decimal> = MarketScanner::default();
    let mut skipped = listed("c3");
    skipped.volume = Some("1".to_string());
    let report = scanner.scan_markets(&vec![listed("c1"), listed("c2"), skipped], NOW);
    assert_eq!((report.added, report.updated, report.total), (2, 0, 2));
    assert_eq!(report.skip_reasons, vec![SkipReason::LowVolume]);
    assert_eq!(report.count_of(SkipReason::LowVolume), 1);
    assert_eq!(report.count_of(SkipReason::Expired), 0);

    let mut changed = listed("c1");
    changed.question = Some("Who wins the league?".to_string());
    let report = scanner.scan_markets(&vec![changed, listed("c4")], later(60));
    assert_eq!((report.added, report.updated, report.total), (1, 1, 3));
    let ids: Vec<&str> = scanner.get_markets().iter().map(|m| m.condition_id.as_str()).collect();
    assert_eq!(ids, vec!["c1", "c2", "c4"]);
    assert_eq!(scanner.get_market("c1").unwrap().question, "Who wins the league?");
    assert!(scanner.get_market("c3").is_none());
    assert_eq!(
        scanner.get_all_token_ids(),
        vec!["c1-y", "c1-n", "c2-y", "c2-n", "c4-y", "c4-n"]
    );
}

#[test]
fn new_prices_reach_one_outcome() {
    let mut scanner: MarketScanner<Decimal> = MarketScanner::new();
    scanner.scan_markets(&vec![listed("c1"), listed("c2")], NOW);
    scanner.update_outcome_price("c2-n", d("0.50"), d("30"), d("0.49"), later(5));
    let changed = scanner.get_market("c2").unwrap();
    assert_eq!(changed.outcomes[1].ask_price, d("0.50"));
    assert_eq!(changed.outcomes[1].ask_size, d("30"));
    assert_eq!(changed.outcomes[1].bid_price, d("0.49"));
    assert_eq!(changed.outcomes[0].ask_price, d("0.45"));
    assert_eq!(changed.last_updated, later(5));
    assert_eq!(scanner.get_market("c1").unwrap().last_updated, NOW);
    scanner.update_outcome_price("none", d("0.10"), d("1"), d("0.09"), later(9));
    assert_eq!(scanner.get_market("c2").unwrap().last_updated, later(5));
}

#[test]
fn statistics_count_every_market_once() {
    let mut scanner: MarketScanner<Decimal> = MarketScanner::new();
    let mut three = listed("c2");
    three.outcomes = Some(r#"["A","B","C"]"#.to_string());
    three.clob_token_ids = Some(r#"["a","b","c"]"#.to_string());
    three.outcome_prices = Some(r#"["0.40","0.40","0.40"]"#.to_string());
    three.tags = Some(vec!["Bitcoin".to_string()]);
    three.start_date = None;
    scanner.scan_markets(&vec![listed("c1"), three], NOW);
    let stats = scanner.get_stats();
    assert_eq!(
        stats,
        ScannerStats {
            total_markets: 2,
            binary_markets: 1,
            multi_outcome_markets: 1,
            new_markets: 1,
            sports_markets: 1,
            politics_markets: 0,
            crypto_markets: 1,
            entertainment_markets: 0,
            other_markets: 0,
            arb_candidates: 1,
        }
    );
    assert_eq!(
        stats.to_text(),
        "Markets: 2 total (1 binary, 1 multi) | New: 1 | Arb candidates: 1 | \
         By category: Sports=1, Politics=0, Crypto=1, Entertainment=0"
    );
    assert_eq!(scanner.market_count(), 2);
    assert_eq!(scanner.binary_market_count(), 1);
    assert_eq!(scanner.multi_outcome_count(), 1);
    assert_eq!(scanner.get_new_markets().len(), 1);
    assert_eq!(scanner.get_arb_candidates(3).len(), 1);
    assert_eq!(scanner.get_arb_candidates(4).len(), 0);
    assert_eq!(ScannerStats::default().total_markets, 0);
}

fn seen(volume: &str, ask: &str) -> TrackedMarket<Decimal> {
    let outcome = |name: &str, price: &str| Outcome {
        name: name.to_string(),
        token_id: name.to_lowercase(),
        ask_price: d(price),
        ask_size: d("100"),
        bid_price: d("0.01"),
    };
    TrackedMarket {
        condition_id: "c1".to_string(),
        question: "Q?".to_string(),
        slug: "q".to_string(),
        outcomes: vec![outcome("Yes", ask), outcome("No", "0.60")],
        volume_usd: d(volume),
        liquidity_usd: d("1"),
        created_at: Some(later(-48 * 3600)),
        end_date: None,
        category: MarketCategory::Sports,
        active: true,
        closed: false,
        is_new: false,
        last_updated: NOW,
        tags: vec![],
    }
}

#[test]
fn changes_show_from_the_second_sight_on() {
    let mut detector: EventDetector<Decimal> = EventDetector::default();
    assert!(detector.process_market(&seen("1000", "0.50"), NOW).is_empty());
    let events = detector.process_market(&seen("5000", "0.55"), later(1));
    assert_eq!(events.len(), 2);
    match &events[0] {
        ArbEvent::VolumeSpike { condition_id, volume_increase_pct, current_volume, .. } => {
            assert_eq!(condition_id, "c1");
            assert_eq!(*volume_increase_pct, d("400"));
            assert_eq!(*current_volume, d("5000"));
        }
        other => panic!("{:?}", other),
    }
    match &events[1] {
        ArbEvent::PriceMovement { outcome_name, old_price, new_price, change_pct, .. } => {
            assert_eq!(outcome_name, "Yes");
            assert_eq!(*old_price, d("0.50"));
            assert_eq!(*new_price, d("0.55"));
            assert_eq!(*change_pct, d("10"));
        }
        other => panic!("{:?}", other),
    }
    assert!(detector.process_market(&seen("5000", "0.55"), later(2)).is_empty());
    assert_eq!(
        detector.event_counts(),
        EventCounts { new_markets: 0, volume_spikes: 1, price_movements: 1, arb_opportunities: 0 }
    );
    assert_eq!(
        detector.event_counts().to_text(),
        "Events: 0 new markets, 1 volume spikes, 1 price moves, 0 arbs"
    );
}

#[test]
fn thresholds_are_those_given() {
    let mut detector = EventDetector::with_thresholds(d("2"), d("0.5"));
    detector.process_market(&seen("1000", "0.50"), NOW);
    assert_eq!(detector.process_market(&seen("1999", "0.74"), NOW).len(), 0);
    assert_eq!(detector.process_market(&seen("3998", "0.20"), NOW).len(), 3);
}

#[test]
fn only_the_latest_thousand_events_are_kept() {
    let mut detector: EventDetector<Decimal> = EventDetector::new();
    for i in 0..1005 {
        let events = detector.process_market(&seen("1000", "0.30"), later(i));
        assert_eq!(events.len(), 1);
    }
    assert_eq!(detector.events.len(), 1000);
    let recent = detector.get_recent_events(2);
    assert_eq!(recent.len(), 2);
    assert_eq!(recent[0].0, later(1004));
    assert_eq!(recent[1].0, later(1003));
    assert_eq!(detector.get_recent_events(5000).len(), 1000);
    assert_eq!(detector.get_arb_events().len(), 1000);
    assert_eq!(detector.get_arb_events()[0].0, later(5));
    assert!(detector.get_new_market_events().is_empty());
    detector.clear_history();
    assert!(detector.get_arb_events().is_empty());
    assert!(detector.history.is_empty());
}

#[test]
fn a_market_is_new_for_a_day() {
    let mut detector: EventDetector<Decimal> = EventDetector::new();
    let mut market = seen("1000", "0.50");
    market.is_new = true;
    market.created_at = Some(later(-5 * 3600));
    let events = detector.process_market(&market, NOW);
    assert!(matches!(&events[0], ArbEvent::NewMarket { age_hours: 5, .. }));
    assert!(detector.process_market(&market, later(19 * 3600)).is_empty());
    assert_eq!(detector.get_new_market_events().len(), 1);
    market.created_at = None;
    assert!(detector.process_market(&market, NOW).is_empty());
}

fn level(price: &str, size: &str) -> PriceLevel {
    PriceLevel { price: price.to_string(), size: size.to_string() }
}

#[test]
fn the_best_ask_is_the_first_of_the_lowest() {
    let asks = vec![level("0.52", "1"), level("0", "9"), level("0.50", "2"), level("0.50", "3")];
    assert_eq!(find_best_ask::<Decimal>(&asks), (50, 200));
    assert_eq!(find_best_ask::<Decimal>(&vec![level("x", "1")]), (0, 0));
    assert_eq!(find_best_ask::<Decimal>(&vec![]), (0, 0));
}

fn feed_state() -> GlobalState {
    let mut state = GlobalState::new();
    state.add_market(
        "c1",
        "Q?",
        vec![("Yes".to_string(), "y".to_string()), ("No".to_string(), "n".to_string())],
    );
    state
}

fn book(token: &str, price: &str, size: &str) -> BookSnapshot {
    BookSnapshot {
        asset_id: token.to_string(),
        bids: vec![],
        asks: vec![level("0.90", "5"), level(price, size)],
    }
}

#[test]
fn a_book_that_closes_an_arbitrage_asks_for_it() {
    let mut state = feed_state();
    assert!(process_book::<Decimal>(&mut state, &book("y", "0.48", "20"), 1, 7).is_none());
    let request = process_book::<Decimal>(&mut state, &book("n", "0.50", "30"), 1, 9).unwrap();
    assert_eq!(request.market_id, 0);
    assert_eq!(request.condition_id, "c1");
    assert_eq!(request.arb_type, ArbType::Binary);
    assert_eq!(request.ask_prices, vec![48, 50]);
    assert_eq!(request.ask_sizes, vec![2000, 3000]);
    assert_eq!(request.token_ids, vec!["y", "n"]);
    assert_eq!(request.expected_profit_cents, 2);
    assert_eq!(request.detected_ns, 9);
    assert!(process_book::<Decimal>(&mut state, &book("n", "0.50", "30"), 3, 9).is_none());
    assert!(process_book::<Decimal>(&mut state, &book("other", "0.01", "30"), 1, 9).is_none());
}

fn change(token: &str, price: Option<&str>, side: Option<&str>) -> PriceChangeItem {
    PriceChangeItem {
        asset_id: token.to_string(),
        price: price.map(|p| p.to_string()),
        side: side.map(|s| s.to_string()),
    }
}

#[test]
fn changed_asks_keep_the_size() {
    let mut state = feed_state();
    process_books::<Decimal>(&mut state, &vec![book("y", "0.48", "20"), book("n", "0.55", "30")], 1, 0);
    let mut quiet = |c: PriceChangeItem| process_price_change::<Decimal>(&mut state, &c, 1, 0).is_none();
    assert!(quiet(change("n", Some("0.50"), Some("BID"))));
    assert!(quiet(change("n", Some("0.50"), None)));
    assert!(quiet(change("n", None, Some("ASK"))));
    assert!(quiet(change("n", Some("0"), Some("ASK"))));
    assert!(quiet(change("other", Some("0.50"), Some("ASK"))));
    assert_eq!(state.get_market(0).unwrap().ask_prices(), vec![48, 55]);
    let request =
        process_price_change::<Decimal>(&mut state, &change("n", Some("0.51"), Some("ask")), 1, 0)
            .unwrap();
    assert_eq!(request.ask_prices, vec![48, 51]);
    assert_eq!(request.ask_sizes, vec![2000, 3000]);
    assert_eq!(request.expected_profit_cents, 1);
}

#[test]
fn messages_ask_in_the_order_of_their_items() {
    let mut state = feed_state();
    let requests = process_books::<Decimal>(
        &mut state,
        &vec![book("y", "0.48", "20"), book("n", "0.50", "30"), book("y", "0.45", "10")],
        1,
        3,
    );
    let profits: Vec<i16> = requests.iter().map(|r| r.expected_profit_cents).collect();
    assert_eq!(profits, vec![2, 5]);

    let event = |kind: Option<&str>| PriceChangeEvent {
        event_type: kind.map(|k| k.to_string()),
        price_changes: Some(vec![
            change("y", Some("0.49"), Some("ASK")),
            change("n", Some("0.60"), Some("ASK")),
        ]),
    };
    assert!(process_event::<Decimal>(&mut state, &event(Some("tick")), 1, 3).is_empty());
    assert!(process_event::<Decimal>(&mut state, &event(None), 1, 3).is_empty());
    let requests = process_event::<Decimal>(&mut state, &event(Some("price_change")), 1, 3);
    assert_eq!(requests.len(), 1);
    assert_eq!(requests[0].expected_profit_cents, 1);
    assert_eq!(state.get_market(0).unwrap().ask_prices(), vec![49, 60]);
}

#[test]
fn all_tokens_are_subscribed_to() {
    let mut state = feed_state();
    state.add_market("c2", "R?", vec![("A".to_string(), "a".to_string())]);
    assert_eq!(subscription_tokens(&state), vec!["y", "n", "a"]);
    assert_eq!(
        markets_url(),
        "https://gamma-api.polymarket.com/markets?active=true&closed=false&limit=1000"
    );
    assert_eq!(
        market_url("c1"),
        "https://gamma-api.polymarket.com/markets?condition_id=c1"
    );
}

#[test]
fn a_connection_lives_on_messages() {
    const SECOND: u64 = 1_000_000_000;
    let mut connection = FeedConnection::new(0);
    assert_eq!(connection.on_event(FeedEvent::PingDue, 30 * SECOND), FeedAction::SendPing);
    assert_eq!(connection.last_message_ns, 0);
    assert_eq!(connection.check_expiry(120 * SECOND), None);
    assert_eq!(connection.check_expiry(120 * SECOND + 1), Some(FeedExpiry::Stale));
    assert_eq!(connection.on_event(FeedEvent::Pong, 100 * SECOND), FeedAction::Wait);
    assert_eq!(connection.on_event(FeedEvent::Ping, 200 * SECOND), FeedAction::SendPong);
    assert_eq!(connection.on_event(FeedEvent::Text, 550 * SECOND), FeedAction::ReadText);
    assert_eq!(connection.on_event(FeedEvent::Other, 560 * SECOND), FeedAction::Wait);
    assert_eq!(connection.last_message_ns, 550 * SECOND);
    assert_eq!(connection.check_expiry(600 * SECOND), None);
    assert_eq!(connection.check_expiry(600 * SECOND + 1), Some(FeedExpiry::Refresh));
    for event in [FeedEvent::PingFailed, FeedEvent::Closed, FeedEvent::Failed, FeedEvent::Ended] {
        assert_eq!(connection.on_event(event, 560 * SECOND), FeedAction::Stop);
    }
}

#[test]
fn an_ask_is_quoted_at_its_place() {
    let mut state = feed_state();
    assert!(quote_place(&mut state, (0, 1), 50, 300, 1, 0).is_none());
    let request = quote_place(&mut state, (0, 0), 47, 200, 3, 4).unwrap();
    assert_eq!(request.ask_prices, vec![47, 50]);
    assert_eq!(request.ask_sizes, vec![200, 300]);
    assert_eq!(request.expected_profit_cents, 3);
    assert!(quote_place(&mut state, (0, 0), 47, 200, 4, 4).is_none());
}

#[test]
fn two_outcomes_for_98_cents_leave_2() {
    let mut state = feed_state();
    process_book::<Decimal>(&mut state, &book("y", "0.48", "20"), 1, 0);
    let request = process_book::<Decimal>(&mut state, &book("n", "0.50", "20"), 1, 0).unwrap();
    assert_eq!(request.expected_profit_cents, 2);
}

#[test]
fn four_candidates_for_95_cents_leave_5() {
    let mut m = listed("c1");
    m.outcomes = Some(r#"["A","B","C","D"]"#.to_string());
    m.clob_token_ids = Some(r#"["a","b","c","d"]"#.to_string());
    m.outcome_prices = Some(r#"["0.30","0.25","0.22","0.18"]"#.to_string());
    let taken = MarketScanner::<Decimal>::process_market_with_reason(&m, NOW).ok().unwrap();
    assert_eq!(taken.sum_of_asks(), d("0.95"));
    assert_eq!(taken.potential_profit_cents(), 5);
    assert_eq!(taken.min_liquidity(), d("0"));
}

#[test]
fn a_scan_keeps_what_it_does_not_list() {
    let mut scanner: MarketScanner<Decimal> = MarketScanner::new();
    scanner.scan_markets(&vec![listed("c1"), listed("c2")], NOW);
    let report = scanner.scan_markets(&vec![], later(300));
    assert_eq!((report.added, report.updated, report.total), (0, 0, 2));
    let mut gone = listed("c1");
    gone.volume = Some("0".to_string());
    scanner.scan_markets(&vec![gone], later(600));
    assert_eq!(scanner.get_market("c1").unwrap().last_updated, NOW);
}

#[test]
fn the_same_book_twice_changes_nothing_more() {
    let mut state = feed_state();
    process_book::<Decimal>(&mut state, &book("y", "0.48", "20"), 1, 0);
    let once = state.get_market(0).unwrap().books[0].load();
    process_book::<Decimal>(&mut state, &book("y", "0.48", "20"), 1, 0);
    assert_eq!(state.get_market(0).unwrap().books[0].load(), once);
    assert_eq!(once, (48, 0, 2000, 0));
}
