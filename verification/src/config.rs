//! Settings: endpoints, capital, thresholds, filters and categories.

use vstd::prelude::*;

use crate::text;

verus! {

// ---------------------------------------------------------------------------
// Endpoints
// ---------------------------------------------------------------------------

/// WebSocket address of the price feed.
pub const POLYMARKET_WS_URL: &'static str = "wss://ws-subscriptions-clob.polymarket.com/ws/market";

/// Base address of the Gamma API, which lists the markets.
pub const GAMMA_API_BASE: &'static str = "https://gamma-api.polymarket.com";

/// Host of the order API.
pub const POLY_CLOB_HOST: &'static str = "https://clob.polymarket.com";

/// Chain id of Polygon.
pub const POLYGON_CHAIN_ID: u64 = 137;

// ---------------------------------------------------------------------------
// Capital
// ---------------------------------------------------------------------------

/// Total capital in cents ($100).
pub const TOTAL_CAPITAL_CENTS: u32 = 10_000;

/// The part of the capital that one arbitrage may use, in percent.
pub const MAX_PER_ARB_PCT: u32 = 50;

/// The part of the capital that is kept back, in percent.
pub const RESERVE_PCT: u32 = 30;

/// The part of the capital that may be at risk at a time, in percent.
pub const MAX_TOTAL_EXPOSURE_PCT: u32 = 70;

// ---------------------------------------------------------------------------
// Profit thresholds
// ---------------------------------------------------------------------------

/// Least profit in cents in a market with two outcomes.
pub const MIN_PROFIT_BINARY_CENTS: u16 = 1;

/// Least profit in cents in a market with three or four outcomes.
pub const MIN_PROFIT_MULTI_CENTS: u16 = 3;

/// Least profit in cents in a larger market.
pub const MIN_PROFIT_LARGE_MULTI_CENTS: u16 = 5;

/// Cost in cents below which two outcomes are worth buying.
pub const ARB_THRESHOLD_BINARY_CENTS: u16 = 99;

/// Cost in cents below which more outcomes are worth buying.
pub const ARB_THRESHOLD_MULTI_CENTS: u16 = 97;

// ---------------------------------------------------------------------------
// Market filters
// ---------------------------------------------------------------------------

/// A tracked market has more volume than this, in dollars.
pub const MIN_VOLUME_USD: i64 = 50_000;

/// Least number of outcomes.
pub const MIN_OUTCOMES: usize = 2;

/// Largest number of outcomes.
pub const MAX_OUTCOMES: usize = 8;

/// A tracked market ends in less than this many days.
pub const MAX_DAYS_TO_EXPIRY: u32 = 30;

/// Age in hours below which a market is new.
pub const NEW_MARKET_HOURS: u64 = 24;

// ---------------------------------------------------------------------------
// Liquidity
// ---------------------------------------------------------------------------

/// Least number of contracts at the best ask.
pub const MIN_LIQUIDITY_CONTRACTS: u16 = 10;

/// Largest slippage in cents.
pub const MAX_SLIPPAGE_CENTS: u16 = 2;

// ---------------------------------------------------------------------------
// Timing
// ---------------------------------------------------------------------------

/// Days of paper trading before live trading.
pub const PAPER_TRADING_DAYS: u32 = 14;

/// Pause between two executions in milliseconds.
pub const COOLDOWN_BETWEEN_ARBS_MS: u64 = 5000;

/// Longest time for one order in milliseconds.
pub const MAX_EXECUTION_TIME_MS: u64 = 2000;

/// Seconds between two pings on the price feed.
pub const POLY_PING_INTERVAL_SECS: u64 = 30;

/// Seconds before the price feed is connected again.
pub const WS_RECONNECT_DELAY_SECS: u64 = 5;

/// Seconds between two market scans.
pub const MARKET_SCAN_INTERVAL_SECS: u64 = 300;

// ---------------------------------------------------------------------------
// Paper trading
// ---------------------------------------------------------------------------

/// Shortest simulated delay in milliseconds.
pub const PAPER_EXEC_DELAY_MIN_MS: u64 = 100;

/// Longest simulated delay in milliseconds.
pub const PAPER_EXEC_DELAY_MAX_MS: u64 = 500;

/// Lowest simulated fill rate in percent.
pub const PAPER_FILL_RATE_MIN_PCT: i64 = 70;

/// Highest simulated fill rate in percent.
pub const PAPER_FILL_RATE_MAX_PCT: i64 = 100;

/// Least simulated slippage in cents.
pub const PAPER_SLIPPAGE_MIN_CENTS: i16 = 0;

/// Most simulated slippage in cents.
pub const PAPER_SLIPPAGE_MAX_CENTS: i16 = 2;

// ---------------------------------------------------------------------------
// Categories
// ---------------------------------------------------------------------------

/// What a market is about.
#[derive(Clone, Copy, Debug, PartialEq, Eq, Hash, Structural)]
pub enum MarketCategory {
    Sports,
    Politics,
    Crypto,
    Entertainment,
    Science,
    Business,
    Other,
}

/// Whether some text holds some word.
pub open spec fn mentions(texts: Seq<Seq<char>>, words: Seq<Seq<char>>) -> bool {
    exists|i: int, j: int|
        0 <= i < texts.len() && 0 <= j < words.len() && #[trigger] text::has_part(
            texts[i],
            words[j],
        )
}

pub open spec fn sports_words() -> Seq<Seq<char>> {
    seq!["sports"@, "nfl"@, "nba"@, "soccer"@, "football"@, "mlb"@, "nhl"@]
}

pub open spec fn politics_words() -> Seq<Seq<char>> {
    seq!["politic"@, "election"@, "president"@, "congress"@, "vote"@]
}

pub open spec fn crypto_words() -> Seq<Seq<char>> {
    seq!["crypto"@, "bitcoin"@, "ethereum"@, "btc"@, "eth"@, "defi"@]
}

pub open spec fn entertainment_words() -> Seq<Seq<char>> {
    seq!["entertainment"@, "movie"@, "oscar"@, "grammy"@, "award"@, "celebrity"@]
}

pub open spec fn science_words() -> Seq<Seq<char>> {
    seq!["science"@, "space"@, "tech"@]
}

pub open spec fn business_words() -> Seq<Seq<char>> {
    seq!["business"@, "economy"@, "stock"@]
}

/// The category of tags in lower case: the first of the lists that some tag
/// mentions a word of.
pub open spec fn category_of(tags: Seq<Seq<char>>) -> MarketCategory {
    if mentions(tags, sports_words()) {
        MarketCategory::Sports
    } else if mentions(tags, politics_words()) {
        MarketCategory::Politics
    } else if mentions(tags, crypto_words()) {
        MarketCategory::Crypto
    } else if mentions(tags, entertainment_words()) {
        MarketCategory::Entertainment
    } else if mentions(tags, science_words()) {
        MarketCategory::Science
    } else if mentions(tags, business_words()) {
        MarketCategory::Business
    } else {
        MarketCategory::Other
    }
}

/// The tags in lower case.
pub open spec fn lowercase_tags(tags: Seq<String>) -> Seq<Seq<char>> {
    tags.map_values(|t: String| text::lowercase(t@))
}

/// Whether markets of the category are traded.
pub open spec fn category_enabled(category: MarketCategory) -> bool {
    category == MarketCategory::Sports || category == MarketCategory::Politics || category
        == MarketCategory::Crypto || category == MarketCategory::Entertainment
}

/// Whether some text holds some word.
fn mentions_any(texts: &Vec<String>, words: &[&str]) -> (r: bool)
    ensures
        r == mentions(text::views(texts@), words@.map_values(|w: &str| w@)),
{
    let ghost all = text::views(texts@);
    let ghost list = words@.map_values(|w: &str| w@);
    let mut i: usize = 0;
    while i < texts.len()
        invariant
            all == text::views(texts@),
            list == words@.map_values(|w: &str| w@),
            i <= texts.len(),
            forall|a: int, b: int|
                0 <= a < i && 0 <= b < list.len() ==> !#[trigger] text::has_part(all[a], list[b]),
        decreases texts.len() - i,
    {
        let mut j: usize = 0;
        while j < words.len()
            invariant
                all == text::views(texts@),
                list == words@.map_values(|w: &str| w@),
                i < texts.len(),
                j <= words.len(),
                forall|b: int| 0 <= b < j ==> !#[trigger] text::has_part(all[i as int], list[b]),
            decreases words.len() - j,
        {
            if text::contains(texts[i].as_str(), words[j]) {
                assert(text::has_part(all[i as int], list[j as int]));
                return true;
            }
            assert(!text::has_part(all[i as int], list[j as int]));
            j = j + 1;
        }
        i = i + 1;
    }
    false
}

impl MarketCategory {
    /// Whether markets of this category are traded.
    pub fn is_enabled(&self) -> (r: bool)
        ensures
            r == category_enabled(*self),
    {
        matches!(
            self,
            MarketCategory::Sports
                | MarketCategory::Politics
                | MarketCategory::Crypto
                | MarketCategory::Entertainment
        )
    }

    /// The category that tags speak of, in any case of letters.
    pub fn from_tags(tags: &[String]) -> (r: Self)
        ensures
            r == category_of(lowercase_tags(tags@)),
    {
        let mut lower: Vec<String> = Vec::new();
        let mut i: usize = 0;
        while i < tags.len()
            invariant
                i <= tags.len(),
                lower.len() == i,
                forall|j: int|
                    0 <= j < i ==> (#[trigger] lower@[j])@ == text::lowercase(tags@[j]@),
            decreases tags.len() - i,
        {
            lower.push(text::to_lowercase(tags[i].as_str()));
            i = i + 1;
        }
        assert(text::views(lower@) =~= lowercase_tags(tags@));
        MarketCategory::from_lowercase_tags(&lower)
    }

    /// The category that tags in lower case speak of.
    pub fn from_lowercase_tags(tags: &Vec<String>) -> (r: Self)
        ensures
            r == category_of(text::views(tags@)),
    {
        let sports = ["sports", "nfl", "nba", "soccer", "football", "mlb", "nhl"];
        let politics = ["politic", "election", "president", "congress", "vote"];
        let crypto = ["crypto", "bitcoin", "ethereum", "btc", "eth", "defi"];
        let entertainment = ["entertainment", "movie", "oscar", "grammy", "award", "celebrity"];
        let science = ["science", "space", "tech"];
        let business = ["business", "economy", "stock"];
        proof {
            assert(sports@.map_values(|w: &str| w@) =~= sports_words());
            assert(politics@.map_values(|w: &str| w@) =~= politics_words());
            assert(crypto@.map_values(|w: &str| w@) =~= crypto_words());
            assert(entertainment@.map_values(|w: &str| w@) =~= entertainment_words());
            assert(science@.map_values(|w: &str| w@) =~= science_words());
            assert(business@.map_values(|w: &str| w@) =~= business_words());
        }
        if mentions_any(tags, &sports) {
            return MarketCategory::Sports;
        }
        if mentions_any(tags, &politics) {
            return MarketCategory::Politics;
        }
        if mentions_any(tags, &crypto) {
            return MarketCategory::Crypto;
        }
        if mentions_any(tags, &entertainment) {
            return MarketCategory::Entertainment;
        }
        if mentions_any(tags, &science) {
            return MarketCategory::Science;
        }
        if mentions_any(tags, &business) {
            return MarketCategory::Business;
        }
        MarketCategory::Other
    }
}

// ---------------------------------------------------------------------------
// Questions to leave alone
// ---------------------------------------------------------------------------

/// Words that rule a market out.
pub open spec fn disabled_words() -> Seq<Seq<char>> {
    seq![
        "weather"@,
        "temperature"@,
        "long-term"@,
        "2026"@,
        "2027"@,
        "2028"@,
        "2029"@,
        "2030"@,
        "local"@,
        "municipal"@,
    ]
}

/// The first year that makes a market a long-term one.
pub const LATE_YEARS_FROM: u32 = 2026;

/// Up to this number, four digits that stand alone are taken for a year. A later
/// number is taken for one only where a question closes with it as a date.
pub const PLAIN_YEARS_TO: u32 = 2199;

/// The number that the four digits from `i` on form.
pub open spec fn year_at(text: Seq<char>, i: int) -> int {
    text::digit_value(text[i]) * 1000 + text::digit_value(text[i + 1]) * 100 + text::digit_value(
        text[i + 2],
    ) * 10 + text::digit_value(text[i + 3])
}

/// Whether a character in front of a number makes it an amount or the end of a
/// longer number.
pub open spec fn marks_before(c: char) -> bool {
    text::is_digit(c) || c == '$' || c == '\u{20ac}' || c == '\u{a3}' || c == '.' || c == ','
}

/// Whether a character behind a number makes it an amount or the start of a
/// longer number: a digit, a percent sign, or a unit. An "s" makes it a decade.
pub open spec fn marks_after(c: char) -> bool {
    text::is_digit(c) || c == '%' || ('a' <= c <= 'z' && c != 's')
}

/// Whether the four characters from `i` on are neither marked as an amount nor a
/// part of a longer number.
pub open spec fn stands_alone(text: Seq<char>, i: int) -> bool {
    &&& i == 0 || !marks_before(text[i - 1])
    &&& i + 4 == text.len() || !marks_after(text[i + 4])
    &&& i + 5 < text.len() && (text[i + 4] == '.' || text[i + 4] == ',') ==> !text::is_digit(
        text[i + 5],
    )
}

/// Words in front of a date.
pub open spec fn date_words() -> Seq<Seq<char>> {
    seq!["by "@, "in "@, "before "@, "until "@, "after "@, "year "@]
}

/// Whether `word` stands right before `i`, as a word of its own.
pub open spec fn follows_word(text: Seq<char>, i: int, word: Seq<char>) -> bool {
    let from = i - word.len();
    &&& 0 <= from
    &&& text.subrange(from, i) == word
    &&& from == 0 || text[from - 1] == ' '
}

/// Whether the four characters from `i` on close a text, or a part of it, as a
/// date.
pub open spec fn closes_as_date(text: Seq<char>, i: int) -> bool {
    &&& i + 4 == text.len() || text[i + 4] != ' '
    &&& exists|k: int|
        0 <= k < date_words().len() && follows_word(text, i, #[trigger] date_words()[k])
}

/// Whether a number of just four digits starts at `i` and is a late year.
pub open spec fn late_year_at(text: Seq<char>, i: int) -> bool {
    &&& 0 <= i <= text.len() - 4
    &&& forall|j: int| i <= j < i + 4 ==> text::is_digit(#[trigger] text[j])
    &&& stands_alone(text, i)
    &&& LATE_YEARS_FROM <= year_at(text, i)
    &&& year_at(text, i) <= PLAIN_YEARS_TO || closes_as_date(text, i)
}

/// Whether a text names a year from 2026 on.
pub open spec fn names_late_year(text: Seq<char>) -> bool {
    exists|i: int| #[trigger] late_year_at(text, i)
}

/// Whether a text in lower case rules its market out: it holds one of the
/// words, or it names a year from 2026 on.
pub open spec fn rules_out(lower: Seq<char>) -> bool {
    mentions(seq![lower], disabled_words()) || names_late_year(lower)
}

/// Whether a question rules its market out, in any case of letters.
pub open spec fn is_skipped(question: Seq<char>) -> bool {
    rules_out(text::lowercase(question))
}

/// Where no late year is named, a question rules its market out exactly where it
/// holds one of the words.
pub proof fn law_only_words_and_late_years_count(question: Seq<char>)
    requires
        !names_late_year(text::lowercase(question)),
    ensures
        is_skipped(question) == mentions(seq![text::lowercase(question)], disabled_words()),
{
}

/// An amount in dollars or in percent is no year, nor is a part of a longer
/// number.
pub proof fn law_amount_is_no_year(text: Seq<char>, i: int)
    requires
        0 <= i <= text.len() - 4,
        ({
            ||| i > 0 && marks_before(text[i - 1])
            ||| i + 4 < text.len() && marks_after(text[i + 4])
            ||| i + 5 < text.len() && (text[i + 4] == '.' || text[i + 4] == ',')
                && text::is_digit(text[i + 5])
        }),
    ensures
        !late_year_at(text, i),
{
}

fn digit_of(c: char) -> (r: Option<u32>)
    ensures
        r == (if text::is_digit(c) {
            Some(text::digit_value(c) as u32)
        } else {
            None
        }),
{
    if '0' <= c && c <= '9' {
        Some(c as u32 - 48)
    } else {
        None
    }
}

fn is_marked(chars: &Vec<char>, i: usize) -> (r: bool)
    requires
        i + 4 <= chars.len(),
    ensures
        r == !stands_alone(chars@, i as int),
{
    if i > 0 {
        let c: char = chars[i - 1];
        if digit_of(c).is_some() || c == '$' || c == '\u{20ac}' || c == '\u{a3}' || c == '.' || c
            == ',' {
            return true;
        }
    }
    if chars.len() - i > 4 {
        let c: char = chars[i + 4];
        if digit_of(c).is_some() || c == '%' || ('a' <= c && c <= 'z' && c != 's') {
            return true;
        }
        if chars.len() - i > 5 && (c == '.' || c == ',') && digit_of(chars[i + 5]).is_some() {
            return true;
        }
    }
    false
}

fn is_closing_date(chars: &Vec<char>, i: usize) -> (r: bool)
    requires
        i + 4 <= chars.len(),
    ensures
        r == closes_as_date(chars@, i as int),
{
    if chars.len() - i > 4 && chars[i + 4] == ' ' {
        return false;
    }
    let words = ["by ", "in ", "before ", "until ", "after ", "year "];
    let ghost list = words@.map_values(|w: &str| w@);
    assert(list =~= date_words());
    let mut k: usize = 0;
    while k < words.len()
        invariant
            i + 4 <= chars.len(),
            i + 4 == chars.len() || chars@[i + 4] != ' ',
            list == words@.map_values(|w: &str| w@),
            list == date_words(),
            k <= words.len(),
            forall|j: int|
                0 <= j < k ==> !follows_word(chars@, i as int, #[trigger] date_words()[j]),
        decreases words.len() - k,
    {
        let word: Vec<char> = text::chars_of(words[k]);
        assert(list[k as int] == word@);
        if word.len() <= i {
            let from: usize = i - word.len();
            if text::has_part_at(chars, from, &word) && (from == 0 || chars[from - 1] == ' ') {
                assert(follows_word(chars@, i as int, date_words()[k as int]));
                return true;
            }
        }
        assert(!follows_word(chars@, i as int, date_words()[k as int]));
        k = k + 1;
    }
    false
}

fn has_late_year_at(chars: &Vec<char>, i: usize) -> (r: bool)
    requires
        i + 4 <= chars.len(),
    ensures
        r == late_year_at(chars@, i as int),
{
    match (
        digit_of(chars[i]),
        digit_of(chars[i + 1]),
        digit_of(chars[i + 2]),
        digit_of(chars[i + 3]),
    ) {
        (Some(a), Some(b), Some(c), Some(d)) => {
            let year: u32 = a * 1000 + b * 100 + c * 10 + d;
            year >= LATE_YEARS_FROM && !is_marked(chars, i) && (year <= PLAIN_YEARS_TO
                || is_closing_date(chars, i))
        },
        _ => false,
    }
}

fn has_late_year(question: &str) -> (r: bool)
    ensures
        r == names_late_year(question@),
{
    let chars: Vec<char> = text::chars_of(question);
    let mut i: usize = 0;
    while i < chars.len() && chars.len() - i >= 4
        invariant
            chars@ == question@,
            i <= chars.len(),
            forall|j: int| 0 <= j < i ==> !late_year_at(chars@, j),
        decreases chars.len() - i,
    {
        if has_late_year_at(&chars, i) {
            return true;
        }
        i = i + 1;
    }
    false
}

/// Whether a market with this question is left alone.
pub fn should_skip_market(question: &str) -> (r: bool)
    ensures
        r == is_skipped(question@),
{
    let lower: String = text::to_lowercase(question);
    should_skip_lowercase(lower)
}

/// Whether a market with this question, already in lower case, is left alone.
pub fn should_skip_lowercase(question: String) -> (r: bool)
    ensures
        r == rules_out(question@),
{
    if has_late_year(question.as_str()) {
        return true;
    }
    let words = [
        "weather",
        "temperature",
        "long-term",
        "2026",
        "2027",
        "2028",
        "2029",
        "2030",
        "local",
        "municipal",
    ];
    assert(words@.map_values(|w: &str| w@) =~= disabled_words());
    let mut texts: Vec<String> = Vec::new();
    texts.push(question);
    assert(text::views(texts@) =~= seq![question@]);
    mentions_any(&texts, &words)
}

// ---------------------------------------------------------------------------
// Derived amounts
// ---------------------------------------------------------------------------

/// The capital in cents that one arbitrage may use.
pub open spec fn capital_per_arb() -> int {
    TOTAL_CAPITAL_CENTS * MAX_PER_ARB_PCT / 100
}

/// The capital in cents that one arbitrage may use.
pub fn max_capital_per_arb_cents() -> (r: u32)
    ensures
        r == capital_per_arb(),
        r == 5000,
{
    TOTAL_CAPITAL_CENTS * MAX_PER_ARB_PCT / 100
}

/// The capital in cents that is kept back.
pub fn reserve_cents() -> (r: u32)
    ensures
        r == TOTAL_CAPITAL_CENTS * RESERVE_PCT / 100,
        r == 3000,
{
    TOTAL_CAPITAL_CENTS * RESERVE_PCT / 100
}

/// The capital in cents beyond the reserve.
pub fn available_capital_cents() -> (r: u32)
    ensures
        r == TOTAL_CAPITAL_CENTS - TOTAL_CAPITAL_CENTS * RESERVE_PCT / 100,
        r == 7000,
{
    TOTAL_CAPITAL_CENTS - reserve_cents()
}

/// The least profit in cents for a market with this many outcomes.
pub open spec fn min_profit(outcome_count: int) -> u16 {
    if outcome_count == 2 {
        MIN_PROFIT_BINARY_CENTS
    } else if outcome_count == 3 || outcome_count == 4 {
        MIN_PROFIT_MULTI_CENTS
    } else {
        MIN_PROFIT_LARGE_MULTI_CENTS
    }
}

/// The least profit in cents for a market with this many outcomes.
pub fn min_profit_for_outcomes(outcome_count: usize) -> (r: u16)
    ensures
        r == min_profit(outcome_count as int),
{
    match outcome_count {
        2 => MIN_PROFIT_BINARY_CENTS,
        3..=4 => MIN_PROFIT_MULTI_CENTS,
        _ => MIN_PROFIT_LARGE_MULTI_CENTS,
    }
}

/// A larger market asks for no less profit than a smaller one.
pub proof fn law_threshold_grows(fewer: int, more: int)
    requires
        2 <= fewer <= more,
    ensures
        min_profit(fewer) <= min_profit(more),
{
}

// ---------------------------------------------------------------------------
// Modes
// ---------------------------------------------------------------------------

/// A flag is on where it is set to "1" or, in any case of letters, "true".
pub open spec fn flag_setting(setting: Option<String>, default: bool) -> bool {
    match setting {
        Some(s) => s@ == "1"@ || text::lowercase(s@) == "true"@,
        None => default,
    }
}

/// Whether a flag is on, given its value and its value in lower case.
pub fn is_flag_on(value: &str, lowercase: &str) -> (r: bool)
    ensures
        r == (value@ == "1"@ || lowercase@ == "true"@),
{
    text::same(value, "1") || text::same(lowercase, "true")
}

/// Reads a flag.
pub fn read_flag(setting: &Option<String>, default: bool) -> (r: bool)
    ensures
        r == flag_setting(*setting, default),
{
    match setting {
        Some(s) => {
            let lower: String = text::to_lowercase(s.as_str());
            is_flag_on(s.as_str(), lower.as_str())
        },
        None => default,
    }
}

/// How the bot trades.
#[derive(Clone, Copy, Debug, PartialEq, Eq, Structural)]
pub struct Modes {
    /// No orders are sent.
    pub dry_run: bool,
    /// Trades are simulated.
    pub paper_mode: bool,
    /// Trades are real even where they would be simulated.
    pub force_live: bool,
}

/// The modes that the environment sets.
pub open spec fn modes_of(
    dry_run: Option<String>,
    paper_mode: Option<String>,
    force_live: Option<String>,
) -> Modes {
    Modes {
        dry_run: flag_setting(dry_run, true),
        paper_mode: flag_setting(paper_mode, true),
        force_live: flag_setting(force_live, false),
    }
}

/// Whether trades are real.
pub open spec fn trades_live(modes: Modes) -> bool {
    !modes.paper_mode || modes.force_live
}

impl Modes {
    /// The modes that the environment sets. Without a word from it, trades are
    /// simulated and no orders are sent.
    pub fn from_settings(
        dry_run: &Option<String>,
        paper_mode: &Option<String>,
        force_live: &Option<String>,
    ) -> (r: Self)
        ensures
            r == modes_of(*dry_run, *paper_mode, *force_live),
            r == (Modes {
                dry_run: flag_setting(*dry_run, true),
                paper_mode: flag_setting(*paper_mode, true),
                force_live: flag_setting(*force_live, false),
            }),
    {
        Modes {
            dry_run: read_flag(dry_run, true),
            paper_mode: read_flag(paper_mode, true),
            force_live: read_flag(force_live, false),
        }
    }

    /// Whether trades are real.
    pub fn is_live(&self) -> (r: bool)
        ensures
            r == trades_live(*self),
            r == (!self.paper_mode || self.force_live),
    {
        !self.paper_mode || self.force_live
    }
}

/// A word is mentioned where some text holds it, and nothing is mentioned where
/// no text holds any word.
pub proof fn law_mentions_are_held_words(
    texts: Seq<Seq<char>>,
    words: Seq<Seq<char>>,
    i: int,
    j: int,
)
    ensures
        0 <= i < texts.len() && 0 <= j < words.len() && text::has_part(texts[i], words[j])
            ==> mentions(texts, words),
        (forall|a: int, b: int|
            0 <= a < texts.len() && 0 <= b < words.len() ==> !#[trigger] text::has_part(
                texts[a],
                words[b],
            )) ==> !mentions(texts, words),
{
}

/// The words that tell the categories, and the order in which they count.
pub proof fn law_words_tell_the_category(tags: Seq<Seq<char>>)
    ensures
        ({
            let sports = mentions(
                tags,
                seq!["sports"@, "nfl"@, "nba"@, "soccer"@, "football"@, "mlb"@, "nhl"@],
            );
            let politics = mentions(
                tags,
                seq!["politic"@, "election"@, "president"@, "congress"@, "vote"@],
            );
            let crypto = mentions(
                tags,
                seq!["crypto"@, "bitcoin"@, "ethereum"@, "btc"@, "eth"@, "defi"@],
            );
            let entertainment = mentions(
                tags,
                seq!["entertainment"@, "movie"@, "oscar"@, "grammy"@, "award"@, "celebrity"@],
            );
            let science = mentions(tags, seq!["science"@, "space"@, "tech"@]);
            let business = mentions(tags, seq!["business"@, "economy"@, "stock"@]);
            let category = category_of(tags);
            &&& category is Sports <==> sports
            &&& category is Politics <==> politics && !sports
            &&& category is Crypto <==> crypto && !sports && !politics
            &&& category is Entertainment <==> entertainment && !sports && !politics && !crypto
            &&& category is Science <==> science && !sports && !politics && !crypto
                && !entertainment
            &&& category is Business <==> business && !sports && !politics && !crypto
                && !entertainment && !science
        }),
{
}

/// Tags without any of the words, and no tags at all, tell no category.
pub proof fn law_other_tags_tell_no_category(tags: Seq<Seq<char>>)
    requires
        tags.len() == 0,
    ensures
        category_of(tags) is Other,
        !category_enabled(category_of(tags)),
{
}

/// Sports, politics, crypto and entertainment are traded, and nothing else is.
pub proof fn law_traded_categories(category: MarketCategory)
    ensures
        category_enabled(category) <==> !(category is Science || category is Business
            || category is Other),
{
}

/// A question with one of the words is left alone, whatever stands around it.
pub proof fn law_disabled_word_rules_out(before: Seq<char>, word: Seq<char>, behind: Seq<char>)
    requires
        word == "weather"@ || word == "temperature"@ || word == "long-term"@ || word == "2026"@
            || word == "2027"@ || word == "2028"@ || word == "2029"@ || word == "2030"@ || word
            == "local"@ || word == "municipal"@,
    ensures
        rules_out(before + word + behind),
{
    let text = before + word + behind;
    text::law_part_has_something_around_it(text, before, word, behind);
    let words = disabled_words();
    let j = if word == "weather"@ {
        0
    } else if word == "temperature"@ {
        1
    } else if word == "long-term"@ {
        2
    } else if word == "2026"@ {
        3
    } else if word == "2027"@ {
        4
    } else if word == "2028"@ {
        5
    } else if word == "2029"@ {
        6
    } else if word == "2030"@ {
        7
    } else if word == "local"@ {
        8
    } else {
        9int
    };
    assert(words[j] == word);
    law_mentions_are_held_words(seq![text], words, 0, j);
}

/// A question that holds none of the words and names no late year is not left
/// alone.
pub proof fn law_other_questions_are_not_ruled_out(lower: Seq<char>)
    requires
        !names_late_year(lower),
        !text::has_part(lower, "weather"@),
        !text::has_part(lower, "temperature"@),
        !text::has_part(lower, "long-term"@),
        !text::has_part(lower, "2026"@),
        !text::has_part(lower, "2027"@),
        !text::has_part(lower, "2028"@),
        !text::has_part(lower, "2029"@),
        !text::has_part(lower, "2030"@),
        !text::has_part(lower, "local"@),
        !text::has_part(lower, "municipal"@),
    ensures
        !rules_out(lower),
{
    law_mentions_are_held_words(seq![lower], disabled_words(), 0, 0);
}

/// The four digits of a year and the number that they stand for.
proof fn lemma_year_text(year: nat)
    requires
        1000 <= year <= 9999,
    ensures
        text::decimal_text(year).len() == 4,
        text::all_digits(text::decimal_text(year)),
        year_at(text::decimal_text(year), 0) == year,
{
    let s = text::decimal_text(year);
    text::law_decimal_reads_back(year);
    reveal_with_fuel(text::decimal_text, 4);
    assert(s =~= seq![
        text::digit_char((year / 1000) as int),
        text::digit_char((year / 100 % 10) as int),
        text::digit_char((year / 10 % 10) as int),
        text::digit_char((year % 10) as int),
    ]);
    assert(year / 1000 == year / 10 / 10 / 10);
}

/// A late year that stands alone between spaces or at the ends of a question is
/// named by it, up to 2199.
pub proof fn law_lone_late_year_is_named(before: Seq<char>, year: nat, behind: Seq<char>)
    requires
        2026 <= year <= 2199,
        before.len() == 0 || before.last() == ' ',
        behind.len() == 0 || behind[0] == ' ' || behind[0] == '?',
    ensures
        names_late_year(before + text::decimal_text(year) + behind),
        rules_out(before + text::decimal_text(year) + behind),
{
    let digits = text::decimal_text(year);
    let text = before + digits + behind;
    let at = before.len() as int;
    lemma_year_text(year);
    assert forall|j: int| at <= j < at + 4 implies text::is_digit(#[trigger] text[j]) by {
        assert(text[j] == digits[j - at]);
    }
    assert(text[at] == digits[0] && text[at + 1] == digits[1] && text[at + 2] == digits[2] && text[
    at + 3] == digits[3]);
    assert(late_year_at(text, at));
}

/// A later year is named where a question closes with it as a date.
pub proof fn law_later_year_is_named_as_a_date(before: Seq<char>, year: nat, behind: Seq<char>)
    requires
        2200 <= year <= 9999,
        before.len() == 0 || before.last() == ' ',
        behind.len() == 0 || behind[0] == '?',
    ensures
        names_late_year(before + "by "@ + text::decimal_text(year) + behind),
{
    let digits = text::decimal_text(year);
    let text = before + "by "@ + digits + behind;
    lemma_year_text(year);
    reveal_strlit("by ");
    let at = before.len() as int + 3;
    assert forall|j: int| at <= j < at + 4 implies text::is_digit(#[trigger] text[j]) by {
        assert(text[j] == digits[j - at]);
    }
    assert(text[at] == digits[0] && text[at + 1] == digits[1] && text[at + 2] == digits[2] && text[
    at + 3] == digits[3]);
    assert(text.subrange(at - 3, at) =~= "by "@);
    assert(follows_word(text, at, date_words()[0]));
    assert(text[at - 1] == ' ');
    assert(late_year_at(text, at));
}

/// A text that names a late year holds four digits, alone, that stand for 2026 or
/// more.
pub proof fn law_late_year_is_a_number(text: Seq<char>)
    requires
        names_late_year(text),
    ensures
        exists|i: int|
            {
                &&& 0 <= i <= text.len() - 4
                &&& text::all_digits(#[trigger] text.subrange(i, i + 4))
                &&& text::digits_value(text.subrange(i, i + 4)) >= 2026
                &&& i == 0 || !text::is_digit(text[i - 1])
                &&& i + 4 == text.len() || !text::is_digit(text[i + 4])
            },
{
    let i = choose|i: int| late_year_at(text, i);
    let s = text.subrange(i, i + 4);
    assert forall|j: int| 0 <= j < s.len() implies '0' <= #[trigger] s[j] <= '9' by {
        assert(s[j] == text[i + j]);
    }
    assert(s =~= seq![text[i], text[i + 1], text[i + 2], text[i + 3]]);
    reveal_with_fuel(text::digits_value, 5);
    assert(s.drop_last() =~= seq![text[i], text[i + 1], text[i + 2]]);
    assert(s.drop_last().drop_last() =~= seq![text[i], text[i + 1]]);
    assert(s.drop_last().drop_last().drop_last() =~= seq![text[i]]);
    assert(s.drop_last().drop_last().drop_last().drop_last() =~= Seq::<char>::empty());
    assert(text::digits_value(s) == year_at(text, i));
}

/// The least profit: a cent with two outcomes, three cents with three or four,
/// five cents with more.
pub proof fn law_least_profit_by_outcomes(outcome_count: int)
    requires
        outcome_count >= 2,
    ensures
        min_profit(outcome_count) == 1 <==> outcome_count < 3,
        min_profit(outcome_count) == 3 <==> 3 <= outcome_count < 5,
        min_profit(outcome_count) == 5 <==> outcome_count >= 5,
{
}

/// A flag that is not set has its default; a set one is on exactly where it says
/// "1" or "true", in any case of letters.
pub proof fn law_flags_are_on_where_set(s: String, default: bool)
    ensures
        flag_setting(None, default) == default,
        s@ == "1"@ ==> flag_setting(Some(s), default),
        text::lowercase(s@) == "true"@ ==> flag_setting(Some(s), default),
        s@ != "1"@ && text::lowercase(s@) != "true"@ ==> !flag_setting(Some(s), default),
{
}

/// Without a word from the environment nothing is real: trades are simulated and
/// no orders are sent. Each setting moves its own mode alone.
pub proof fn law_nothing_is_real_unless_set(
    dry_run: Option<String>,
    paper_mode: Option<String>,
    force_live: Option<String>,
)
    ensures
        modes_of(None, paper_mode, force_live).dry_run,
        modes_of(dry_run, None, force_live).paper_mode,
        !modes_of(dry_run, paper_mode, None).force_live,
        !trades_live(modes_of(dry_run, None, None)),
        dry_run matches Some(s) && (s@ == "1"@ || text::lowercase(s@) == "true"@) || dry_run is None
            <==> modes_of(dry_run, paper_mode, force_live).dry_run,
        (paper_mode matches Some(s) && (s@ == "1"@ || text::lowercase(s@) == "true"@))
            || paper_mode is None <==> modes_of(dry_run, paper_mode, force_live).paper_mode,
        (force_live matches Some(s) && (s@ == "1"@ || text::lowercase(s@) == "true"@))
            <==> modes_of(dry_run, paper_mode, force_live).force_live,
{
}

/// Trades are real exactly where they are not simulated or real ones are forced.
pub proof fn law_live_takes_no_paper_or_force(modes: Modes)
    ensures
        modes.force_live ==> trades_live(modes),
        !modes.paper_mode ==> trades_live(modes),
        modes.paper_mode && !modes.force_live ==> !trades_live(modes),
{
}

} // verus!
