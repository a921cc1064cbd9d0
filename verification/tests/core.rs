//! Prices, books, markets and settings.

use std::hash::{Hash, Hasher};

use polymarket_arb::config::{
    available_capital_cents, is_flag_on, max_capital_per_arb_cents, min_profit_for_outcomes,
    reserve_cents, should_skip_market, MarketCategory, Modes,
};
use polymarket_arb::polymarket::GammaMarket;
use polymarket_arb::quantity::{Decimal, Quantity};
use polymarket_arb::text;
use polymarket_arb::timestamp;
use polymarket_arb::timestamp::Timestamp;
use polymarket_arb::types::{
    cents_to_price, fxhash_str, pack_orderbook, parse_price, parse_size, price_to_cents,
    unpack_orderbook, ArbType, AtomicOutcomeBook, ExecutionRequest, GlobalState,
    MultiOutcomeState,
};

#[test]
fn test_capital_calculations() {
    assert_eq!(max_capital_per_arb_cents(), 5000);
    assert_eq!(reserve_cents(), 3000);
    assert_eq!(available_capital_cents(), 7000);
}

#[test]
fn test_profit_thresholds() {
    assert_eq!(min_profit_for_outcomes(2), 1);
    assert_eq!(min_profit_for_outcomes(3), 3);
    assert_eq!(min_profit_for_outcomes(4), 3);
    assert_eq!(min_profit_for_outcomes(5), 5);
    assert_eq!(min_profit_for_outcomes(8), 5);
}

#[test]
fn test_should_skip_market() {
    assert!(should_skip_market("What will the weather be in NYC?"));
    assert!(should_skip_market("Who wins 2027 election?"));
    assert!(!should_skip_market("Who wins Super Bowl 2025?"));
    assert!(!should_skip_market("Will Bitcoin hit $100k?"));
}

#[test]
fn test_category_enabled() {
    assert!(MarketCategory::Sports.is_enabled());
    assert!(MarketCategory::Politics.is_enabled());
    assert!(MarketCategory::Crypto.is_enabled());
    assert!(MarketCategory::Entertainment.is_enabled());
    assert!(!MarketCategory::Other.is_enabled());
}

#[test]
fn test_pack_unpack() {
    let test_cases = vec![
        (50, 48, 1000, 900),
        (1, 1, 100, 100),
        (99, 97, 65535, 65535),
        (0, 0, 0, 0),
    ];

    for (ask, bid, ask_sz, bid_sz) in test_cases {
        let packed = pack_orderbook(ask, bid, ask_sz, bid_sz);
        let (a, b, as_, bs) = unpack_orderbook(packed);
        assert_eq!((a, b, as_, bs), (ask, bid, ask_sz, bid_sz));
    }
}

#[test]
fn test_atomic_outcome_book() {
    let mut book = AtomicOutcomeBook::new();
    book.store(45, 43, 500, 400);

    let (ask, bid, ask_sz, bid_sz) = book.load();
    assert_eq!((ask, bid, ask_sz, bid_sz), (45, 43, 500, 400));

    book.update_ask(47, 600);
    let (ask, bid, ask_sz, bid_sz) = book.load();
    assert_eq!((ask, bid, ask_sz, bid_sz), (47, 43, 600, 400));
}

#[test]
fn test_multi_outcome_state() {
    let outcomes = vec![
        ("Yes".to_string(), "token1".to_string()),
        ("No".to_string(), "token2".to_string()),
    ];

    let mut market = MultiOutcomeState::new(0, "cond1", "Will it rain?", outcomes);

    assert!(market.is_binary());
    assert_eq!(market.outcome_count, 2);

    market.books[0].update_ask(45, 100);
    market.books[1].update_ask(52, 100);

    assert_eq!(market.sum_of_asks(), 97);
    assert_eq!(market.profit_cents(), 3);
    assert!(market.has_arb());
    assert!(market.all_priced());
}

#[test]
fn test_multi_outcome_no_arb() {
    let outcomes = vec![
        ("A".to_string(), "t1".to_string()),
        ("B".to_string(), "t2".to_string()),
        ("C".to_string(), "t3".to_string()),
    ];

    let mut market = MultiOutcomeState::new(0, "cond", "Who wins?", outcomes);

    market.books[0].update_ask(35, 100);
    market.books[1].update_ask(35, 100);
    market.books[2].update_ask(35, 100);

    assert_eq!(market.sum_of_asks(), 105);
    assert!(!market.has_arb());
    assert_eq!(market.profit_cents(), -5);
}

#[test]
fn test_global_state() {
    let mut state = GlobalState::new();

    let outcomes = vec![
        ("Yes".to_string(), "token_yes".to_string()),
        ("No".to_string(), "token_no".to_string()),
    ];

    let id = state.add_market("condition_1", "Test market?", outcomes);
    assert_eq!(id, Some(0));
    assert_eq!(state.market_count(), 1);

    state.update_price("token_yes", 48, 500);
    state.update_price("token_no", 50, 600);

    let market = state.get_market(0).unwrap();
    assert_eq!(market.sum_of_asks(), 98);
    assert!(market.has_arb());
}

#[test]
fn test_gamma_market_parsing() {
    let market = GammaMarket {
        condition_id: Some("cond1".to_string()),
        question: Some("Test?".to_string()),
        slug: Some("test".to_string()),
        outcomes: Some(r#"["Yes","No"]"#.to_string()),
        outcome_prices: Some(r#"["0.45","0.55"]"#.to_string()),
        clob_token_ids: Some(r#"["token1","token2"]"#.to_string()),
        volume: Some("100000".to_string()),
        liquidity: Some("10000".to_string()),
        start_date: None,
        end_date: None,
        active: Some(true),
        closed: Some(false),
        tags: Some(vec!["sports".to_string()]),
    };

    assert_eq!(market.parse_outcomes(), vec!["Yes", "No"]);
    assert_eq!(market.parse_token_ids(), vec!["token1", "token2"]);
    assert_eq!(market.outcome_count(), 2);
}

fn two_outcomes() -> Vec<(String, String)> {
    vec![("Yes".to_string(), "y".to_string()), ("No".to_string(), "n".to_string())]
}

#[test]
fn the_word_of_a_quote_holds_the_ask_price_highest() {
    assert_eq!(pack_orderbook(1, 2, 3, 4), 0x0001_0002_0003_0004);
    assert_eq!(unpack_orderbook(0xffff_0001_8000_0007), (0xffff, 1, 0x8000, 7));
}

#[test]
fn a_new_bid_leaves_the_ask() {
    let mut book = AtomicOutcomeBook::default();
    book.store(45, 43, 500, 400);
    book.update_bid(44, 10);
    assert_eq!(book.load(), (45, 44, 500, 10));
    assert_eq!(book.ask_price(), 45);
    assert_eq!(book.ask_size(), 500);
}

#[test]
fn books_start_empty() {
    let market = MultiOutcomeState::new(3, "c", "Q?", two_outcomes());
    assert_eq!(market.market_id, 3);
    assert_eq!(market.books[1].load(), (0, 0, 0, 0));
    assert!(!market.all_priced());
    assert_eq!(market.min_liquidity(), 0);
    assert_eq!(market.outcomes[1].token_id, "n");
}

#[test]
fn liquidity_is_that_of_the_scarcest_outcome() {
    let mut market = MultiOutcomeState::new(0, "c", "Q?", two_outcomes());
    market.books[0].update_ask(45, 700);
    market.books[1].update_ask(50, 300);
    assert_eq!(market.min_liquidity(), 300);
    assert!(market.has_sufficient_liquidity(300));
    assert!(!market.has_sufficient_liquidity(301));
    assert_eq!(market.ask_prices(), vec![45, 50]);
    assert_eq!(market.ask_sizes(), vec![700, 300]);
}

#[test]
fn unknown_tokens_change_nothing() {
    let mut state = GlobalState::default();
    state.add_market("c1", "Q?", two_outcomes());
    assert_eq!(state.update_price("other", 10, 10), None);
    assert_eq!(state.update_price("n", 52, 100), Some(0));
    assert_eq!(state.find_by_token("y"), Some((0, 0)));
    assert_eq!(state.find_by_token("n"), Some((0, 1)));
    assert_eq!(state.find_by_token("other"), None);
    assert_eq!(state.get_market(0).unwrap().ask_prices(), vec![0, 52]);
}

#[test]
fn markets_are_found_by_condition() {
    let mut state = GlobalState::new();
    state.add_market("c1", "First?", two_outcomes());
    let three = vec![
        ("A".to_string(), "a".to_string()),
        ("B".to_string(), "b".to_string()),
        ("C".to_string(), "c".to_string()),
    ];
    assert_eq!(state.add_market("c2", "Second?", three), Some(1));
    assert!(state.has_condition("c2"));
    assert!(!state.has_condition("c3"));
    assert_eq!(state.get_by_condition("c2").unwrap().question, "Second?");
    assert!(state.get_by_condition("c3").is_none());
    assert!(state.get_market(2).is_none());
    assert_eq!((state.market_count(), state.binary_count(), state.multi_count()), (2, 1, 1));
}

#[test]
fn there_is_room_for_2048_markets() {
    let mut state = GlobalState::new();
    for i in 0..2048 {
        assert_eq!(state.add_market(&format!("c{}", i), "Q?", vec![]), Some(i as u16));
    }
    assert_eq!(state.add_market("one too many", "Q?", vec![]), None);
    assert_eq!(state.market_count(), 2048);
    assert!(!state.has_condition("one too many"));
}

#[test]
fn candidates_are_priced_and_profitable() {
    let mut state = GlobalState::new();
    state.add_market("c1", "First?", two_outcomes());
    state.add_market(
        "c2",
        "Second?",
        vec![("A".to_string(), "a".to_string()), ("B".to_string(), "b".to_string())],
    );
    state.update_price("y", 48, 100);
    assert!(state.get_arb_candidates(1).is_empty());
    state.update_price("n", 50, 100);
    state.update_price("a", 50, 100);
    state.update_price("b", 49, 100);
    let found: Vec<u16> = state.get_arb_candidates(2).iter().map(|m| m.market_id).collect();
    assert_eq!(found, vec![0]);
    assert_eq!(state.get_arb_candidates(1).len(), 2);
}

#[test]
fn the_hash_is_that_of_the_fx_hasher() {
    let mut hasher = rustc_hash::FxHasher::default();
    "token_yes".hash(&mut hasher);
    assert_eq!(fxhash_str("token_yes"), hasher.finish());
    assert_ne!(fxhash_str("token_yes"), fxhash_str("token_no"));
}

#[test]
fn requests_are_good_for_what_is_on_offer() {
    let request = ExecutionRequest {
        market_id: 0,
        condition_id: "c".to_string(),
        arb_type: ArbType::Binary,
        ask_prices: vec![48, 50],
        ask_sizes: vec![1250, 2000],
        token_ids: vec!["y".to_string(), "n".to_string()],
        expected_profit_cents: 2,
        detected_ns: 0,
    };
    assert_eq!(request.max_contracts(), 12);
    assert_eq!(request.total_cost_cents(12), 12 * 98);
}

#[test]
fn skipping_minds_no_case() {
    assert!(should_skip_market("What will the WEATHER be?"));
    assert!(should_skip_market("A LONG-Term bet"));
}

#[test]
fn late_years_are_skipped() {
    assert!(should_skip_market("Who wins the 2031 election?"));
    assert!(should_skip_market("2099"));
    assert!(should_skip_market("Mars landing before 2040"));
    assert!(!should_skip_market("Who wins in 2025?"));
    assert!(should_skip_market("Net zero by 2100?"));
    assert!(should_skip_market("The 2100 census"));
    assert!(should_skip_market("Gone by 2500?"));
    assert!(should_skip_market("Gone in the 2040s?"));
    assert!(!should_skip_market("Won by 2500 votes?"));
    assert!(!should_skip_market("Will the index close above 5000?"));
    assert!(!should_skip_market("standby 2500"));
    assert!(!should_skip_market("Will Ethereum hit $2050?"));
    assert!(!should_skip_market("Gold at \u{20ac}2050?"));
    assert!(!should_skip_market("A rate of 1.2045?"));
    assert!(!should_skip_market("More than 1,2045?"));
    assert!(!should_skip_market("2050.5 or 2050,5 points?"));
    assert!(!should_skip_market("Up 2050%?"));
    assert!(!should_skip_market("A price of 2050k?"));
    assert!(should_skip_market("In 2050, or 2051."));
    assert!(!should_skip_market("More than 12031 votes?"));
    assert!(!should_skip_market("More than 20310 votes?"));
    assert!(!should_skip_market("203"));
    assert!(!should_skip_market(""));
}

fn tags(words: &[&str]) -> Vec<String> {
    words.iter().map(|w| w.to_string()).collect()
}

#[test]
fn tags_tell_the_category() {
    assert_eq!(MarketCategory::from_tags(&tags(&["NFL"])), MarketCategory::Sports);
    assert_eq!(MarketCategory::from_tags(&tags(&["US Election"])), MarketCategory::Politics);
    assert_eq!(MarketCategory::from_tags(&tags(&["Bitcoin"])), MarketCategory::Crypto);
    assert_eq!(MarketCategory::from_tags(&tags(&["Movies"])), MarketCategory::Entertainment);
    assert_eq!(MarketCategory::from_tags(&tags(&["Gardening"])), MarketCategory::Other);
    assert_eq!(MarketCategory::from_tags(&[]), MarketCategory::Other);
    assert!(!MarketCategory::Science.is_enabled());
    assert!(!MarketCategory::Business.is_enabled());
}

#[test]
fn trades_are_simulated_unless_told_otherwise() {
    let modes = Modes::from_settings(&None, &None, &None);
    assert!(modes.dry_run && modes.paper_mode && !modes.force_live);
    assert!(!modes.is_live());
    let off = Some("0".to_string());
    let on = Some("TRUE".to_string());
    let modes = Modes::from_settings(&off, &off, &None);
    assert!(!modes.dry_run && !modes.paper_mode);
    assert!(modes.is_live());
    let modes = Modes::from_settings(&None, &Some("1".to_string()), &on);
    assert!(modes.paper_mode && modes.force_live && modes.is_live());
    assert!(is_flag_on("1", "1"));
    assert!(!is_flag_on("yes", "yes"));
}

#[test]
fn missing_lists_are_empty() {
    let market = GammaMarket {
        condition_id: None,
        question: None,
        slug: None,
        outcomes: Some("not a list".to_string()),
        outcome_prices: None,
        clob_token_ids: None,
        volume: None,
        liquidity: None,
        start_date: None,
        end_date: None,
        active: None,
        closed: None,
        tags: None,
    };
    assert!(market.parse_outcomes().is_empty());
    assert!(market.parse_token_ids().is_empty());
    assert_eq!(market.outcome_count(), 0);
}

#[test]
fn numbers_are_written_in_decimal() {
    assert_eq!(text::decimal(0), "0");
    assert_eq!(text::decimal(u64::MAX), "18446744073709551615");
    assert_eq!(text::signed_decimal(-105), "-105");
    assert_eq!(text::signed_decimal(i64::MIN), "-9223372036854775808");
    assert_eq!(text::dollars(10_250), "102.50");
    assert_eq!(text::dollars(-5), "-0.05");
    assert_eq!(text::signed_dollars(250), "+$2.50");
    assert_eq!(text::signed_dollars(-1), "-$0.01");
    assert_eq!(text::signed_dollars(0), "+$0.00");
}

#[test]
fn integers_are_read_as_written() {
    assert_eq!(text::parse_integer("-12", -100, 100), Some(-12));
    assert_eq!(text::parse_integer("+7", -100, 100), Some(7));
    assert_eq!(text::parse_integer("101", -100, 100), None);
    assert_eq!(text::parse_integer("", -100, 100), None);
    assert_eq!(text::parse_integer("-", -100, 100), None);
    assert_eq!(text::parse_integer("1 ", -100, 100), None);
    assert_eq!(text::parse_unsigned("-0", 10), None);
    assert_eq!(text::parse_unsigned("10", 10), Some(10));
    assert_eq!(text::parse_unsigned("99999999999999999999999999999999", u64::MAX), None);
}

#[test]
fn instants_are_read_in_rfc3339() {
    assert_eq!(
        timestamp::parse_rfc3339("1970-01-02T00:00:01Z"),
        Some(Timestamp { secs: 86_401, nanos: 0 })
    );
    assert_eq!(
        timestamp::parse_rfc3339("1970-01-01T01:00:00.5+01:00"),
        Some(Timestamp { secs: 0, nanos: 500_000_000 })
    );
    assert_eq!(timestamp::parse_rfc3339("yesterday"), None);
}

#[test]
fn days_and_hours_are_counted_toward_zero() {
    let start = Timestamp { secs: 1_000_000, nanos: 0 };
    let later = Timestamp { secs: 1_000_000 + 2 * 86_400 + 5, nanos: 0 };
    assert_eq!(timestamp::num_days(later, start), 2);
    assert_eq!(timestamp::num_days(start, later), -2);
    assert_eq!(timestamp::num_hours(later, start), 48);
    let just_before = Timestamp { secs: 999_999, nanos: 1 };
    assert_eq!(timestamp::num_days(just_before, start), 0);
    assert_eq!(timestamp::num_hours(start, just_before), 0);
}

fn d(s: &str) -> Decimal {
    Decimal::parse(s).unwrap()
}

#[test]
fn numbers_are_read_with_powers_of_ten() {
    let units = |s: &str| Decimal::parse(s).map(|n| n.units);
    assert_eq!(units("1e1"), Some(10_000_000));
    assert_eq!(units("1.5E-1"), Some(150_000));
    assert_eq!(units("-1.2345678e+4"), Some(-12_345_678_000));
    assert_eq!(units("1.23456789"), Some(1_234_567));
    assert_eq!(units(".5"), Some(500_000));
    assert_eq!(units("5."), Some(5_000_000));
    assert_eq!(units("0e999999999999999999999999999999999999999999"), Some(0));
    assert_eq!(units("1e-999999999999999999999999999999999999999999"), Some(0));
    assert_eq!(units("1e999999999999999999999999999999999999999999"), Some(i64::MAX));
    assert_eq!(units("-1e999"), Some(i64::MIN));
    assert_eq!(units("-9223372036854.775808"), Some(i64::MIN));
    assert_eq!(units("9223372036854.775807"), Some(i64::MAX));
    assert_eq!(units("inf"), Some(i64::MAX));
    assert_eq!(units("-Infinity"), Some(i64::MIN));
    for s in ["", "+", ".", "e5", "1e", "1e+", "1e1.5", "1ee1", "--1", "infinit", "nan", "1\u{e9}", " 1"] {
        assert_eq!(units(s), None, "{}", s);
    }
    assert_eq!(parse_size::<Decimal>("1e1"), 1000);
    assert_eq!(parse_size::<Decimal>("inf"), 65535);
    assert_eq!(parse_price::<Decimal>("4.5e-1"), 45);
}

#[test]
fn cents_survive_the_price() {
    for c in 0..=99 {
        assert_eq!(price_to_cents(cents_to_price::<Decimal>(c)), c);
    }
}

#[test]
fn decimals_are_exact_to_six_places() {
    assert_eq!(d("0.45").plus(d("0.52")), d("0.97"));
    assert_eq!(d("1").minus(d("0.97")), d("0.03"));
    assert_eq!(d("2.5").times(d("4")), d("10"));
    assert_eq!(d("1").over(d("3")), d("0.333333"));
    assert_eq!(d("-2").magnitude(), d("2"));
    assert_eq!(d("0.1").lesser(d("0.2")), d("0.1"));
    assert!(d("0.1").below(d("0.2")));
    assert!(d("0.2").at_most(d("0.2")));
    assert_eq!(Decimal::ratio(60, 100), d("0.6"));
    assert_eq!(Decimal::from_int(7), d("7"));
    assert_eq!(Decimal::parse("x"), None);
    assert_eq!(Decimal::parse("1.2.3"), None);
}

#[test]
fn decimals_round_halves_away_from_zero() {
    assert_eq!(d("2.5").rounded(-10, 10), 3);
    assert_eq!(d("-2.5").rounded(-10, 10), -3);
    assert_eq!(d("2.4").rounded(-10, 10), 2);
    assert_eq!(d("99").rounded(-10, 10), 10);
    assert_eq!(d("-2.9").truncated(-10, 10), -2);
    assert_eq!(d("72.45").tenths(), "72.5");
    assert_eq!(d("-0.04").tenths(), "-0.0");
    assert_eq!(d("60").tenths(), "60.0");
}

#[test]
fn prices_are_read_in_cents() {
    assert_eq!(parse_price::<Decimal>("0.07"), 7);
    assert_eq!(parse_price::<Decimal>("0.7"), 70);
    assert_eq!(parse_price::<Decimal>("0.505"), 51);
    assert_eq!(parse_price::<Decimal>("7"), 99);
    assert_eq!(parse_price::<Decimal>("-1"), 0);
    assert_eq!(parse_price::<Decimal>("cheap"), 0);
    assert_eq!(parse_size::<Decimal>("12.5"), 1250);
    assert_eq!(parse_size::<Decimal>("1000"), 65535);
    assert_eq!(parse_size::<Decimal>("none"), 0);
    assert_eq!(price_to_cents(d("0.995")), 99);
    assert_eq!(cents_to_price::<Decimal>(45), d("0.45"));
}

#[test]
fn keys_lead_to_places() {
    let mut state = GlobalState::new();
    assert_eq!(state.enter_market(11, &vec![21, 22], "c1", "Q?", two_outcomes()), Some(0));
    assert_eq!(state.enter_market(12, &vec![22, 23], "c2", "R?", two_outcomes()), Some(1));
    assert_eq!(state.find_by_key(21), Some((0, 0)));
    assert_eq!(state.find_by_key(22), Some((1, 0)));
    assert_eq!(state.find_by_key(23), Some((1, 1)));
    assert_eq!(state.find_by_key(24), None);
    assert_eq!(state.condition_by_key(12), Some(1));
    assert_eq!(state.condition_by_key(13), None);
    state.set_ask(1, 0, 44, 700);
    assert_eq!(state.get_market(1).unwrap().ask_prices(), vec![44, 0]);
    assert_eq!(state.get_market(0).unwrap().ask_prices(), vec![0, 0]);
}
