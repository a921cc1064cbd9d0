//! Prices, order books, markets and the state of all tracked markets.

use rustc_hash::{FxBuildHasher, FxHashMap, FxHasher};
use std::hash::{Hash, Hasher};
use vstd::arithmetic::div_mod::{lemma_div_denominator, lemma_fundamental_div_mod_converse};
use vstd::prelude::*;

use crate::quantity::{Decimal, Quantity};
use crate::seqs;
use crate::text;

verus! {

/// Price in cents, 1 to 99 for $0.01 to $0.99; 0 means that there is no price.
pub type PriceCents = u16;

/// Size in cents of a dollar.
pub type SizeCents = u16;

/// The price that means that there is none.
pub const NO_PRICE: u16 = 0;

/// The largest number of outcomes in a market.
pub const MAX_OUTCOMES: usize = 8;

/// The largest number of markets tracked at a time.
pub const MAX_MARKETS: usize = 2048;

// ---------------------------------------------------------------------------
// The order book of one outcome, in one word
// ---------------------------------------------------------------------------

/// Best prices and sizes on both sides of one outcome.
pub struct Quote {
    pub ask_price: u16,
    pub bid_price: u16,
    pub ask_size: u16,
    pub bid_size: u16,
}

/// The word that holds a quote: ask price, bid price, ask size, bid size, 16
/// bits each, the first in the highest bits.
pub open spec fn packed_value(q: Quote) -> int {
    q.ask_price * 0x1_0000_0000_0000 + q.bid_price * 0x1_0000_0000 + q.ask_size * 0x1_0000
        + q.bid_size
}

/// The quote that a word holds.
pub open spec fn quote_of(packed: u64) -> Quote {
    Quote {
        ask_price: (packed / 0x1_0000_0000_0000) as u16,
        bid_price: ((packed / 0x1_0000_0000) % 0x1_0000) as u16,
        ask_size: ((packed / 0x1_0000) % 0x1_0000) as u16,
        bid_size: (packed % 0x1_0000) as u16,
    }
}

/// Packs a quote into one word.
pub fn pack_orderbook(ask_price: u16, bid_price: u16, ask_size: u16, bid_size: u16) -> (r: u64)
    ensures
        r == packed_value(Quote { ask_price, bid_price, ask_size, bid_size }),
        quote_of(r) == (Quote { ask_price, bid_price, ask_size, bid_size }),
{
    let (a, b, c, d): (u64, u64, u64, u64) = (
        ask_price as u64,
        bid_price as u64,
        ask_size as u64,
        bid_size as u64,
    );
    let r: u64 = (a << 48) | (b << 32) | (c << 16) | d;
    assert(r == a * 0x1_0000_0000_0000 + b * 0x1_0000_0000 + c * 0x1_0000 + d) by (bit_vector)
        requires
            a <= 0xffff,
            b <= 0xffff,
            c <= 0xffff,
            d <= 0xffff,
            r == (a << 48) | (b << 32) | (c << 16) | d,
    ;
    proof {
        law_unpacking_undoes_packing(Quote { ask_price, bid_price, ask_size, bid_size }, r);
    }
    r
}

/// Unpacks a word into ask price, bid price, ask size and bid size.
pub fn unpack_orderbook(packed: u64) -> (r: (u16, u16, u16, u16))
    ensures
        quote_of(packed) == (Quote {
            ask_price: r.0,
            bid_price: r.1,
            ask_size: r.2,
            bid_size: r.3,
        }),
{
    let a: u64 = (packed >> 48) & 0xffff;
    let b: u64 = (packed >> 32) & 0xffff;
    let c: u64 = (packed >> 16) & 0xffff;
    let d: u64 = packed & 0xffff;
    assert(a == packed / 0x1_0000_0000_0000 && b == (packed / 0x1_0000_0000) % 0x1_0000 && c == (
    packed / 0x1_0000) % 0x1_0000 && d == packed % 0x1_0000) by (bit_vector)
        requires
            a == (packed >> 48) & 0xffff,
            b == (packed >> 32) & 0xffff,
            c == (packed >> 16) & 0xffff,
            d == packed & 0xffff,
    ;
    assert(a <= 0xffff && b <= 0xffff && c <= 0xffff && d <= 0xffff);
    (a as u16, b as u16, c as u16, d as u16)
}

/// What is packed into a word is what unpacking gives back.
pub proof fn law_unpacking_undoes_packing(q: Quote, packed: u64)
    requires
        packed == packed_value(q),
    ensures
        quote_of(packed) == q,
{
    let word = packed as int;
    let prices = q.ask_price * 0x1_0000 + q.bid_price;
    let upper = prices * 0x1_0000 + q.ask_size;
    lemma_fundamental_div_mod_converse(word, 0x1_0000, upper, q.bid_size as int);
    lemma_fundamental_div_mod_converse(upper, 0x1_0000, prices, q.ask_size as int);
    lemma_fundamental_div_mod_converse(prices, 0x1_0000, q.ask_price as int, q.bid_price as int);
    lemma_div_denominator(word, 0x1_0000, 0x1_0000);
    lemma_div_denominator(word, 0x1_0000_0000, 0x1_0000);
}

/// Packing the quote of a word gives the word back: no two words hold the same quote.
pub proof fn law_packing_undoes_unpacking(packed: u64)
    ensures
        packed_value(quote_of(packed)) == packed,
{
    let word = packed as int;
    lemma_div_denominator(word, 0x1_0000, 0x1_0000);
    lemma_div_denominator(word, 0x1_0000_0000, 0x1_0000);
    let upper = word / 0x1_0000;
    let prices = word / 0x1_0000_0000;
    let ask = word / 0x1_0000_0000_0000;
    assert(word == upper * 0x1_0000 + word % 0x1_0000);
    assert(upper == prices * 0x1_0000 + upper % 0x1_0000);
    assert(prices == ask * 0x1_0000 + prices % 0x1_0000);
    assert(0 <= ask < 0x1_0000);
}

/// The order book of one outcome. Both sides live in one word, so that a
/// change to either leaves no moment at which the two disagree.
#[derive(Clone, Copy, Debug)]
pub struct AtomicOutcomeBook {
    /// Ask price, bid price, ask size and bid size, 16 bits each.
    pub packed: u64,
}

impl View for AtomicOutcomeBook {
    type V = Quote;

    open spec fn view(&self) -> Quote {
        quote_of(self.packed)
    }
}

impl AtomicOutcomeBook {
    /// An empty book.
    pub fn new() -> (r: Self)
        ensures
            r@ == (Quote { ask_price: 0, bid_price: 0, ask_size: 0, bid_size: 0 }),
    {
        AtomicOutcomeBook { packed: 0 }
    }

    /// Ask price, bid price, ask size and bid size.
    pub fn load(&self) -> (r: (u16, u16, u16, u16))
        ensures
            self@ == (Quote { ask_price: r.0, bid_price: r.1, ask_size: r.2, bid_size: r.3 }),
    {
        unpack_orderbook(self.packed)
    }

    /// The ask price.
    pub fn ask_price(&self) -> (r: u16)
        ensures
            r == self@.ask_price,
    {
        unpack_orderbook(self.packed).0
    }

    /// The size at the ask.
    pub fn ask_size(&self) -> (r: u16)
        ensures
            r == self@.ask_size,
    {
        unpack_orderbook(self.packed).2
    }

    /// Replaces both sides.
    pub fn store(&mut self, ask_price: u16, bid_price: u16, ask_size: u16, bid_size: u16)
        ensures
            final(self)@ == (Quote { ask_price, bid_price, ask_size, bid_size }),
    {
        self.packed = pack_orderbook(ask_price, bid_price, ask_size, bid_size);
    }

    /// Replaces the ask side; the bid side stays.
    pub fn update_ask(&mut self, ask_price: u16, ask_size: u16)
        ensures
            final(self)@ == (Quote { ask_price, ask_size, ..old(self)@ }),
    {
        let (_, bid_price, _, bid_size) = unpack_orderbook(self.packed);
        self.packed = pack_orderbook(ask_price, bid_price, ask_size, bid_size);
    }

    /// Replaces the bid side; the ask side stays.
    pub fn update_bid(&mut self, bid_price: u16, bid_size: u16)
        ensures
            final(self)@ == (Quote { bid_price, bid_size, ..old(self)@ }),
    {
        let (ask_price, _, ask_size, _) = unpack_orderbook(self.packed);
        self.packed = pack_orderbook(ask_price, bid_price, ask_size, bid_size);
    }
}

impl Default for AtomicOutcomeBook {
    fn default() -> (r: Self)
        ensures
            r@ == (Quote { ask_price: 0, bid_price: 0, ask_size: 0, bid_size: 0 }),
    {
        AtomicOutcomeBook::new()
    }
}

// ---------------------------------------------------------------------------
// A market and its outcomes
// ---------------------------------------------------------------------------

/// Name and token of an outcome.
#[derive(Debug)]
pub struct OutcomeMeta {
    /// Outcome name, such as "Yes" or "Chiefs".
    pub name: String,
    /// The token that is traded for this outcome.
    pub token_id: String,
}

impl Clone for OutcomeMeta {
    fn clone(&self) -> (r: Self)
        ensures
            r == *self,
    {
        OutcomeMeta { name: self.name.clone(), token_id: self.token_id.clone() }
    }
}

/// A tracked market: its outcomes and the order book of each.
pub struct MultiOutcomeState {
    pub market_id: u16,
    pub condition_id: String,
    pub question: String,
    pub outcomes: Vec<OutcomeMeta>,
    /// One book for each outcome, in the same order.
    pub books: Vec<AtomicOutcomeBook>,
    pub outcome_count: usize,
}

/// `n` as 16 bits in two's complement.
pub open spec fn low_i16(n: int) -> int {
    if n % 0x1_0000 < 0x8000 {
        n % 0x1_0000
    } else {
        n % 0x1_0000 - 0x1_0000
    }
}

/// Profit in cents on one contract of each outcome, where those cost `sum`
/// together and one of them pays 100. The sum is taken in 16 bits.
pub open spec fn profit_of(sum: int) -> int {
    100 - low_i16(sum)
}

/// Whether 32 bits hold the sum and 16 bits the profit.
pub open spec fn profit_fits(sum: int) -> bool {
    sum <= u32::MAX && profit_of(sum) <= i16::MAX
}

/// The ask prices of some books, in order.
pub open spec fn ask_prices_of(books: Seq<AtomicOutcomeBook>) -> Seq<u16> {
    books.map_values(|b: AtomicOutcomeBook| b@.ask_price)
}

/// The ask sizes of some books, in order.
pub open spec fn ask_sizes_of(books: Seq<AtomicOutcomeBook>) -> Seq<u16> {
    books.map_values(|b: AtomicOutcomeBook| b@.ask_size)
}

impl MultiOutcomeState {
    /// One book for each outcome.
    pub open spec fn wf(self) -> bool {
        &&& self.outcomes.len() == self.outcome_count
        &&& self.books.len() == self.outcome_count
    }

    /// The sum of the ask prices, in cents.
    pub open spec fn ask_sum(self) -> int {
        seqs::total(ask_prices_of(self.books@))
    }

    /// Every outcome has a price.
    pub open spec fn is_priced(self) -> bool {
        forall|i: int| 0 <= i < self.books.len() ==> (#[trigger] self.books@[i])@.ask_price > 0
    }

    /// A market as it enters: the given names and tokens, and empty books.
    pub open spec fn is_fresh(
        self,
        market_id: u16,
        condition_id: Seq<char>,
        question: Seq<char>,
        outcomes: Seq<(String, String)>,
    ) -> bool {
        &&& self.wf()
        &&& self.market_id == market_id
        &&& self.condition_id@ == condition_id
        &&& self.question@ == question
        &&& self.outcomes.len() == outcomes.len()
        &&& forall|i: int|
            0 <= i < outcomes.len() ==> (#[trigger] self.outcomes@[i]).name == outcomes[i].0
                && self.outcomes@[i].token_id == outcomes[i].1
        &&& forall|i: int|
            0 <= i < outcomes.len() ==> (#[trigger] self.books@[i])@ == (Quote {
                ask_price: 0,
                bid_price: 0,
                ask_size: 0,
                bid_size: 0,
            })
    }

    /// `after` is this market with another ask at outcome `index`.
    pub open spec fn with_ask(self, index: int, price: u16, size: u16, after: Self) -> bool {
        &&& after.market_id == self.market_id
        &&& after.condition_id == self.condition_id
        &&& after.question == self.question
        &&& after.outcomes == self.outcomes
        &&& after.outcome_count == self.outcome_count
        &&& after.books.len() == self.books.len()
        &&& after.books@[index]@ == (Quote {
            ask_price: price,
            ask_size: size,
            ..self.books@[index]@
        })
        &&& forall|i: int|
            0 <= i < self.books.len() && i != index ==> #[trigger] after.books@[i]
                == self.books@[i]
    }

    /// A market with empty books for the given names and tokens.
    pub fn new(
        market_id: u16,
        condition_id: &str,
        question: &str,
        outcomes: Vec<(String, String)>,
    ) -> (r: Self)
        ensures
            r.is_fresh(market_id, condition_id@, question@, outcomes@),
    {
        let outcome_count: usize = outcomes.len();
        let mut metas: Vec<OutcomeMeta> = Vec::new();
        let mut books: Vec<AtomicOutcomeBook> = Vec::new();
        let mut i: usize = 0;
        while i < outcome_count
            invariant
                outcome_count == outcomes.len(),
                i <= outcome_count,
                metas.len() == i,
                books.len() == i,
                forall|j: int|
                    0 <= j < i ==> (#[trigger] metas@[j]).name == outcomes@[j].0
                        && metas@[j].token_id == outcomes@[j].1,
                forall|j: int|
                    0 <= j < i ==> (#[trigger] books@[j])@ == (Quote {
                        ask_price: 0,
                        bid_price: 0,
                        ask_size: 0,
                        bid_size: 0,
                    }),
            decreases outcome_count - i,
        {
            metas.push(
                OutcomeMeta { name: outcomes[i].0.clone(), token_id: outcomes[i].1.clone() },
            );
            books.push(AtomicOutcomeBook::new());
            i = i + 1;
        }
        MultiOutcomeState {
            market_id,
            condition_id: condition_id.to_string(),
            question: question.to_string(),
            outcomes: metas,
            books,
            outcome_count,
        }
    }

    /// The sum of all ask prices in cents.
    pub fn sum_of_asks(&self) -> (r: u32)
        requires
            self.ask_sum() <= u32::MAX,
        ensures
            r == self.ask_sum(),
    {
        let ghost prices = ask_prices_of(self.books@);
        let mut sum: u32 = 0;
        let mut i: usize = 0;
        assert(prices.take(0) =~= Seq::<u16>::empty());
        while i < self.books.len()
            invariant
                prices == ask_prices_of(self.books@),
                seqs::total(prices) <= u32::MAX,
                i <= self.books.len(),
                sum == seqs::total(prices.take(i as int)),
            decreases self.books.len() - i,
        {
            proof {
                seqs::lemma_total_next(prices, i as int);
                seqs::lemma_total_prefix(prices, i + 1);
            }
            sum = sum + self.books[i].ask_price() as u32;
            i = i + 1;
        }
        assert(prices.take(i as int) =~= prices);
        sum
    }

    /// The smallest size at the ask over all outcomes; 0 where there is none.
    pub fn min_liquidity(&self) -> (r: u16)
        ensures
            r == seqs::least(ask_sizes_of(self.books@)),
    {
        let ghost sizes = ask_sizes_of(self.books@);
        let mut low: u16 = 0;
        let mut i: usize = 0;
        assert(sizes.take(0) =~= Seq::<u16>::empty());
        while i < self.books.len()
            invariant
                sizes == ask_sizes_of(self.books@),
                i <= self.books.len(),
                low == seqs::least(sizes.take(i as int)),
            decreases self.books.len() - i,
        {
            let size: u16 = self.books[i].ask_size();
            assert(sizes.take(i + 1).drop_last() =~= sizes.take(i as int));
            if i == 0 || size < low {
                low = size;
            }
            i = i + 1;
        }
        assert(sizes.take(i as int) =~= sizes);
        low
    }

    /// Whether all outcomes together cost less than the dollar that one of them pays.
    pub fn has_arb(&self) -> (r: bool)
        requires
            self.ask_sum() <= u32::MAX,
        ensures
            r == (self.ask_sum() < 100),
    {
        self.sum_of_asks() < 100
    }

    /// Profit in cents: a dollar less the sum of the ask prices.
    pub fn profit_cents(&self) -> (r: i16)
        requires
            profit_fits(self.ask_sum()),
        ensures
            r == profit_of(self.ask_sum()),
    {
        let low: u32 = self.sum_of_asks() % 0x1_0000;
        let sum: i32 = if low < 0x8000 { low as i32 } else { low as i32 - 0x1_0000 };
        (100 - sum) as i16
    }

    /// Whether every outcome has a price.
    pub fn all_priced(&self) -> (r: bool)
        ensures
            r == self.is_priced(),
    {
        let mut i: usize = 0;
        while i < self.books.len()
            invariant
                i <= self.books.len(),
                forall|j: int| 0 <= j < i ==> (#[trigger] self.books@[j])@.ask_price > 0,
            decreases self.books.len() - i,
        {
            if self.books[i].ask_price() == 0 {
                return false;
            }
            i = i + 1;
        }
        true
    }

    /// Whether every outcome offers at least `min_contracts` at the ask.
    pub fn has_sufficient_liquidity(&self, min_contracts: u16) -> (r: bool)
        ensures
            r == (forall|i: int|
                0 <= i < self.books.len() ==> (#[trigger] self.books@[i])@.ask_size
                    >= min_contracts),
    {
        let mut i: usize = 0;
        while i < self.books.len()
            invariant
                i <= self.books.len(),
                forall|j: int|
                    0 <= j < i ==> (#[trigger] self.books@[j])@.ask_size >= min_contracts,
            decreases self.books.len() - i,
        {
            if self.books[i].ask_size() < min_contracts {
                return false;
            }
            i = i + 1;
        }
        true
    }

    /// All ask prices, in the order of the outcomes.
    pub fn ask_prices(&self) -> (r: Vec<u16>)
        ensures
            r@ == ask_prices_of(self.books@),
    {
        let mut prices: Vec<u16> = Vec::new();
        let mut i: usize = 0;
        while i < self.books.len()
            invariant
                i <= self.books.len(),
                prices@ == ask_prices_of(self.books@).take(i as int),
            decreases self.books.len() - i,
        {
            prices.push(self.books[i].ask_price());
            i = i + 1;
        }
        prices
    }

    /// All ask sizes, in the order of the outcomes.
    pub fn ask_sizes(&self) -> (r: Vec<u16>)
        ensures
            r@ == ask_sizes_of(self.books@),
    {
        let mut sizes: Vec<u16> = Vec::new();
        let mut i: usize = 0;
        while i < self.books.len()
            invariant
                i <= self.books.len(),
                sizes@ == ask_sizes_of(self.books@).take(i as int),
            decreases self.books.len() - i,
        {
            sizes.push(self.books[i].ask_size());
            i = i + 1;
        }
        sizes
    }

    /// Whether the market has two outcomes.
    pub fn is_binary(&self) -> (r: bool)
        ensures
            r == (self.outcome_count == 2),
    {
        self.outcome_count == 2
    }
}

/// A market offers an arbitrage exactly when its profit is positive, and the
/// profit is then what is left of a dollar after buying every outcome.
pub proof fn law_arb_is_profit(market: MultiOutcomeState)
    requires
        market.ask_sum() < 0x8000,
    ensures
        profit_of(market.ask_sum()) == 100 - market.ask_sum(),
        market.ask_sum() < 100 <==> profit_of(market.ask_sum()) > 0,
{
    seqs::lemma_total_nonnegative(ask_prices_of(market.books@));
}

// ---------------------------------------------------------------------------
// Requests to execute
// ---------------------------------------------------------------------------

/// Kind of arbitrage.
#[derive(Clone, Copy, Debug, PartialEq, Eq, Structural)]
pub enum ArbType {
    /// Two outcomes that cost less than a dollar together.
    Binary,
    /// More outcomes that cost less than a dollar together.
    MultiOutcome,
}

/// The whole contracts that are on offer of every outcome.
pub open spec fn contracts_on_offer(sizes: Seq<u16>) -> int {
    seqs::least(sizes) as int / 100
}

/// A request to buy every outcome of a market.
#[derive(Debug)]
pub struct ExecutionRequest {
    pub market_id: u16,
    pub condition_id: String,
    pub arb_type: ArbType,
    /// Ask price of each outcome in cents.
    pub ask_prices: Vec<u16>,
    /// Size at the ask of each outcome in cents.
    pub ask_sizes: Vec<u16>,
    /// Token of each outcome.
    pub token_ids: Vec<String>,
    pub expected_profit_cents: i16,
    /// When the opportunity was seen, in nanoseconds.
    pub detected_ns: u64,
}

impl ExecutionRequest {
    /// How many contracts of each outcome are on offer.
    pub fn max_contracts(&self) -> (r: u16)
        ensures
            r == contracts_on_offer(self.ask_sizes@),
            r == seqs::least(self.ask_sizes@) / 100,
    {
        least_value(&self.ask_sizes) / 100
    }

    /// What `contracts` contracts of each outcome cost, in cents.
    pub fn total_cost_cents(&self, contracts: u16) -> (r: u32)
        requires
            seqs::total(self.ask_prices@) <= u32::MAX,
            seqs::total(self.ask_prices@) * contracts <= u32::MAX,
        ensures
            r == seqs::total(self.ask_prices@) * contracts,
    {
        let sum: u32 = total_value(&self.ask_prices);
        sum * contracts as u32
    }
}

/// The sum of the values.
pub fn total_value(values: &Vec<u16>) -> (r: u32)
    requires
        seqs::total(values@) <= u32::MAX,
    ensures
        r == seqs::total(values@),
{
    let mut sum: u32 = 0;
    let mut i: usize = 0;
    assert(values@.take(0) =~= Seq::<u16>::empty());
    while i < values.len()
        invariant
            seqs::total(values@) <= u32::MAX,
            i <= values.len(),
            sum == seqs::total(values@.take(i as int)),
        decreases values.len() - i,
    {
        proof {
            seqs::lemma_total_next(values@, i as int);
            seqs::lemma_total_prefix(values@, i + 1);
        }
        sum = sum + values[i] as u32;
        i = i + 1;
    }
    assert(values@.take(i as int) =~= values@);
    sum
}

/// The smallest of the values, or 0 where there is none.
pub fn least_value(values: &Vec<u16>) -> (r: u16)
    ensures
        r == seqs::least(values@),
{
    let mut low: u16 = 0;
    let mut i: usize = 0;
    assert(values@.take(0) =~= Seq::<u16>::empty());
    while i < values.len()
        invariant
            i <= values.len(),
            low == seqs::least(values@.take(i as int)),
        decreases values.len() - i,
    {
        assert(values@.take(i + 1).drop_last() =~= values@.take(i as int));
        if i == 0 || values[i] < low {
            low = values[i];
        }
        i = i + 1;
    }
    assert(values@.take(i as int) =~= values@);
    low
}

// ---------------------------------------------------------------------------
// Keys and lookups
// ---------------------------------------------------------------------------

/// The Fx hash of a text, for one target, whose pointers have `pointer_bits`
/// bits.
pub uninterp spec fn fx_hash(text: Seq<char>, pointer_bits: int) -> u64;

/// The key under which an identifier is looked up.
pub open spec fn key_of(id: Seq<char>) -> u64 {
    fx_hash(id, usize::BITS as int)
}

/// The Fx hash of a text: feeds the text to a default `rustc_hash::FxHasher`
/// through `str`'s `Hash` and takes `finish`. The hasher starts from a fixed
/// state and reads nothing but the bytes it is given, so the value is a
/// function of the text and of the target that the crate is built for.
#[verifier::external_body]
pub fn fxhash_str(s: &str) -> (r: u64)
    ensures
        r == fx_hash(s@, usize::BITS as int),
{
    let mut hasher = FxHasher::default();
    s.hash(&mut hasher);
    hasher.finish()
}

/// The state that `rustc_hash` hash maps build their hashers from.
#[verifier::external_type_specification]
#[verifier::external_body]
pub struct ExFxBuildHasher(FxBuildHasher);

/// An empty `FxHashMap`, by its `Default`.
#[verifier::external_body]
fn index_new<V>() -> (r: FxHashMap<u64, V>)
    ensures
        r@ == (Map::<u64, V>::empty()),
{
    FxHashMap::default()
}

/// `FxHashMap::insert`: the key maps to the value from then on, whether or not
/// it was there, and every other key keeps its value.
#[verifier::external_body]
fn index_insert<V>(index: &mut FxHashMap<u64, V>, key: u64, value: V)
    ensures
        final(index)@ == old(index)@.insert(key, value),
{
    index.insert(key, value);
}

/// `FxHashMap::get`, with the value copied out.
#[verifier::external_body]
fn index_get<V: Copy>(index: &FxHashMap<u64, V>, key: u64) -> (r: Option<V>)
    ensures
        r == (if index@.dom().contains(key) {
            Some(index@[key])
        } else {
            None
        }),
{
    index.get(&key).copied()
}

/// `FxHashMap::contains_key`.
#[verifier::external_body]
fn index_contains<V>(index: &FxHashMap<u64, V>, key: u64) -> (r: bool)
    ensures
        r == index@.dom().contains(key),
{
    index.contains_key(&key)
}

// ---------------------------------------------------------------------------
// All tracked markets
// ---------------------------------------------------------------------------

/// All tracked markets and the lookups into them.
pub struct GlobalState {
    pub markets: Vec<MultiOutcomeState>,
    /// The id that the next market gets.
    pub next_market_id: u16,
    /// From the key of a token to its market and outcome.
    pub token_to_market: FxHashMap<u64, (u16, usize)>,
    /// From the key of a condition to its market.
    pub condition_to_market: FxHashMap<u64, u16>,
}

/// The keys of the tokens of some outcomes.
pub open spec fn token_keys(outcomes: Seq<(String, String)>) -> Seq<u64> {
    outcomes.map_values(|o: (String, String)| key_of(o.1@))
}

/// The token lookup after the first `n` token keys of a new market were
/// entered. A later key takes the place of an equal one before it.
pub open spec fn tokens_entered(
    index: Map<u64, (u16, usize)>,
    market_id: u16,
    keys: Seq<u64>,
    n: int,
) -> Map<u64, (u16, usize)>
    decreases n,
{
    if n <= 0 {
        index
    } else {
        tokens_entered(index, market_id, keys, n - 1).insert(
            keys[n - 1],
            (market_id, (n - 1) as usize),
        )
    }
}

/// Whether a market is worth `min_profit_cents` with every outcome priced.
pub open spec fn is_candidate(market: MultiOutcomeState, min_profit_cents: i16) -> bool {
    market.is_priced() && profit_of(market.ask_sum()) >= min_profit_cents
}

impl GlobalState {
    /// Markets are numbered as they came, each has one book per outcome, and
    /// every lookup leads to a market and an outcome of it.
    pub open spec fn wf(self) -> bool {
        &&& self.markets.len() == self.next_market_id
        &&& self.next_market_id <= MAX_MARKETS
        &&& forall|i: int|
            0 <= i < self.markets.len() ==> (#[trigger] self.markets@[i]).wf()
                && self.markets@[i].market_id == i
        &&& forall|key: u64| #[trigger]
            self.token_to_market@.dom().contains(key) ==> {
                let (market_id, outcome) = self.token_to_market@[key];
                market_id < self.markets.len() && outcome < self.markets@[market_id as int].books.len()
            }
        &&& forall|key: u64| #[trigger]
            self.condition_to_market@.dom().contains(key) ==> self.condition_to_market@[key]
                < self.markets.len()
    }

    /// Where the token leads.
    pub open spec fn token_lookup(self, token_id: Seq<char>) -> Option<(u16, usize)> {
        if self.token_to_market@.dom().contains(key_of(token_id)) {
            Some(self.token_to_market@[key_of(token_id)])
        } else {
            None
        }
    }

    /// Where the condition leads.
    pub open spec fn condition_lookup(self, condition_id: Seq<char>) -> Option<u16> {
        if self.condition_to_market@.dom().contains(key_of(condition_id)) {
            Some(self.condition_to_market@[key_of(condition_id)])
        } else {
            None
        }
    }

    /// 32 bits hold the ask sum of every priced market, and 16 bits its profit.
    pub open spec fn profits_fit(self) -> bool {
        forall|i: int|
            0 <= i < self.markets.len() && (#[trigger] self.markets@[i]).is_priced()
                ==> profit_fits(self.markets@[i].ask_sum())
    }

    /// No markets.
    pub fn new() -> (r: Self)
        ensures
            r.wf(),
            r.markets@ == Seq::<MultiOutcomeState>::empty(),
            r.token_to_market@ == Map::<u64, (u16, usize)>::empty(),
            r.condition_to_market@ == Map::<u64, u16>::empty(),
    {
        GlobalState {
            markets: Vec::with_capacity(MAX_MARKETS),
            next_market_id: 0,
            token_to_market: index_new(),
            condition_to_market: index_new(),
        }
    }

    /// Adds a market with the given outcomes (name and token each) and enters
    /// the keys of its condition and tokens. Returns its id, or `None` where
    /// there is no room.
    pub fn enter_market(
        &mut self,
        condition_key: u64,
        keys: &Vec<u64>,
        condition_id: &str,
        question: &str,
        outcomes: Vec<(String, String)>,
    ) -> (r: Option<u16>)
        requires
            old(self).wf(),
            keys.len() == outcomes.len(),
        ensures
            final(self).wf(),
            old(self).markets.len() >= MAX_MARKETS ==> r is None && *final(self) == *old(self),
            old(self).markets.len() < MAX_MARKETS ==> {
                let id = old(self).markets.len() as u16;
                &&& r == Some(id)
                &&& final(self).markets.len() == id + 1
                &&& forall|i: int| 0 <= i < id ==> final(self).markets@[i] == old(self).markets@[i]
                &&& final(self).markets@[id as int].is_fresh(
                    id,
                    condition_id@,
                    question@,
                    outcomes@,
                )
                &&& final(self).token_to_market@ == tokens_entered(
                    old(self).token_to_market@,
                    id,
                    keys@,
                    keys.len() as int,
                )
                &&& final(self).condition_to_market@ == old(self).condition_to_market@.insert(
                    condition_key,
                    id,
                )
            },
    {
        if self.next_market_id as usize >= MAX_MARKETS {
            return None;
        }
        let market_id: u16 = self.next_market_id;
        self.next_market_id = self.next_market_id + 1;
        let ghost before = *self;
        let mut i: usize = 0;
        while i < keys.len()
            invariant
                i <= keys.len(),
                self.markets == before.markets,
                self.next_market_id == before.next_market_id,
                self.condition_to_market == before.condition_to_market,
                self.token_to_market@ == tokens_entered(
                    before.token_to_market@,
                    market_id,
                    keys@,
                    i as int,
                ),
                forall|key: u64| #[trigger]
                    self.token_to_market@.dom().contains(key) ==> {
                        let (id, outcome) = self.token_to_market@[key];
                        ||| id == market_id && outcome < i
                        ||| before.token_to_market@.dom().contains(key)
                            && before.token_to_market@[key] == (id, outcome)
                    },
            decreases keys.len() - i,
        {
            index_insert(&mut self.token_to_market, keys[i], (market_id, i));
            i = i + 1;
        }
        index_insert(&mut self.condition_to_market, condition_key, market_id);
        let market = MultiOutcomeState::new(market_id, condition_id, question, outcomes);
        self.markets.push(market);
        Some(market_id)
    }

    /// Adds a market with the given outcomes (name and token each) and enters
    /// its condition and tokens. Returns its id, or `None` where there is no room.
    pub fn add_market(
        &mut self,
        condition_id: &str,
        question: &str,
        outcomes: Vec<(String, String)>,
    ) -> (r: Option<u16>)
        requires
            old(self).wf(),
        ensures
            final(self).wf(),
            old(self).markets.len() >= MAX_MARKETS ==> r is None && *final(self) == *old(self),
            old(self).markets.len() < MAX_MARKETS ==> {
                let id = old(self).markets.len() as u16;
                &&& r == Some(id)
                &&& final(self).markets.len() == id + 1
                &&& forall|i: int| 0 <= i < id ==> final(self).markets@[i] == old(self).markets@[i]
                &&& final(self).markets@[id as int].is_fresh(
                    id,
                    condition_id@,
                    question@,
                    outcomes@,
                )
                &&& final(self).token_to_market@ == tokens_entered(
                    old(self).token_to_market@,
                    id,
                    token_keys(outcomes@),
                    outcomes.len() as int,
                )
                &&& final(self).condition_to_market@ == old(self).condition_to_market@.insert(
                    key_of(condition_id@),
                    id,
                )
            },
    {
        let mut keys: Vec<u64> = Vec::new();
        let mut i: usize = 0;
        while i < outcomes.len()
            invariant
                i <= outcomes.len(),
                keys@ == token_keys(outcomes@).take(i as int),
            decreases outcomes.len() - i,
        {
            keys.push(fxhash_str(outcomes[i].1.as_str()));
            i = i + 1;
        }
        assert(keys@ =~= token_keys(outcomes@));
        self.enter_market(fxhash_str(condition_id), &keys, condition_id, question, outcomes)
    }

    /// The market with this id.
    pub fn get_market(&self, market_id: u16) -> (r: Option<&MultiOutcomeState>)
        ensures
            market_id < self.markets.len() ==> r == Some(&self.markets@[market_id as int]),
            market_id >= self.markets.len() ==> r is None,
    {
        if (market_id as usize) < self.markets.len() {
            Some(&self.markets[market_id as usize])
        } else {
            None
        }
    }

    /// The market that a condition key leads to.
    pub fn condition_by_key(&self, key: u64) -> (r: Option<u16>)
        ensures
            r == (if self.condition_to_market@.dom().contains(key) {
                Some(self.condition_to_market@[key])
            } else {
                None
            }),
    {
        index_get(&self.condition_to_market, key)
    }

    /// The market with this condition.
    pub fn get_by_condition(&self, condition_id: &str) -> (r: Option<&MultiOutcomeState>)
        requires
            self.wf(),
        ensures
            match self.condition_lookup(condition_id@) {
                Some(id) => r == Some(&self.markets@[id as int]),
                None => r is None,
            },
    {
        match self.condition_by_key(fxhash_str(condition_id)) {
            Some(market_id) => self.get_market(market_id),
            None => None,
        }
    }

    /// Whether the condition is tracked.
    pub fn has_condition(&self, condition_id: &str) -> (r: bool)
        ensures
            r == (self.condition_lookup(condition_id@) is Some),
    {
        index_contains(&self.condition_to_market, fxhash_str(condition_id))
    }

    /// The market and the outcome that a token key leads to.
    pub fn find_by_key(&self, key: u64) -> (r: Option<(u16, usize)>)
        ensures
            r == (if self.token_to_market@.dom().contains(key) {
                Some(self.token_to_market@[key])
            } else {
                None
            }),
    {
        index_get(&self.token_to_market, key)
    }

    /// The market and the outcome that a token belongs to.
    pub fn find_by_token(&self, token_id: &str) -> (r: Option<(u16, usize)>)
        ensures
            r == self.token_lookup(token_id@),
    {
        self.find_by_key(fxhash_str(token_id))
    }

    /// Replaces the ask of an outcome.
    pub fn set_ask(&mut self, market_id: u16, outcome: usize, ask_price: u16, ask_size: u16)
        requires
            old(self).wf(),
            market_id < old(self).markets.len(),
            outcome < old(self).markets@[market_id as int].books.len(),
        ensures
            final(self).wf(),
            final(self).token_to_market == old(self).token_to_market,
            final(self).condition_to_market == old(self).condition_to_market,
            final(self).markets.len() == old(self).markets.len(),
            old(self).markets@[market_id as int].with_ask(
                outcome as int,
                ask_price,
                ask_size,
                final(self).markets@[market_id as int],
            ),
            forall|i: int|
                0 <= i < old(self).markets.len() && i != market_id ==> final(self).markets@[i]
                    == old(self).markets@[i],
    {
        let market = &mut self.markets[market_id as usize];
        let book = &mut market.books[outcome];
        book.update_ask(ask_price, ask_size);
        assert(self.markets@[market_id as int].wf());
    }

    /// Replaces the ask of the outcome with this token and returns its market;
    /// an unknown token changes nothing.
    pub fn update_price(&mut self, token_id: &str, ask_price: u16, ask_size: u16) -> (r: Option<u16>)
        requires
            old(self).wf(),
        ensures
            final(self).wf(),
            final(self).token_to_market == old(self).token_to_market,
            final(self).condition_to_market == old(self).condition_to_market,
            match old(self).token_lookup(token_id@) {
                None => r is None && *final(self) == *old(self),
                Some((id, outcome)) => {
                    &&& r == Some(id)
                    &&& final(self).markets.len() == old(self).markets.len()
                    &&& old(self).markets@[id as int].with_ask(
                        outcome as int,
                        ask_price,
                        ask_size,
                        final(self).markets@[id as int],
                    )
                    &&& forall|i: int|
                        0 <= i < old(self).markets.len() && i != id ==> final(self).markets@[i]
                            == old(self).markets@[i]
                },
            },
    {
        match self.find_by_token(token_id) {
            None => None,
            Some((market_id, outcome)) => {
                self.set_ask(market_id, outcome, ask_price, ask_size);
                Some(market_id)
            },
        }
    }

    /// The markets that are worth `min_profit_cents`, in order.
    pub fn get_arb_candidates(&self, min_profit_cents: i16) -> (r: Vec<&MultiOutcomeState>)
        requires
            self.profits_fit(),
        ensures
            r@.unref() == self.markets@.filter(
                |m: MultiOutcomeState| is_candidate(m, min_profit_cents),
            ),
    {
        let ghost keep = |m: MultiOutcomeState| is_candidate(m, min_profit_cents);
        let mut found: Vec<&MultiOutcomeState> = Vec::new();
        let mut i: usize = 0;
        proof {
            reveal(Seq::filter);
            assert(self.markets@.take(0) =~= Seq::empty());
        }
        while i < self.markets.len()
            invariant
                keep == (|m: MultiOutcomeState| is_candidate(m, min_profit_cents)),
                self.profits_fit(),
                i <= self.markets.len(),
                found@.unref() == self.markets@.take(i as int).filter(keep),
            decreases self.markets.len() - i,
        {
            let market = &self.markets[i];
            proof {
                seqs::lemma_filter_next(self.markets@, keep, i as int);
            }
            if market.all_priced() && market.profit_cents() >= min_profit_cents {
                found.push(market);
            }
            i = i + 1;
        }
        assert(self.markets@.take(i as int) =~= self.markets@);
        found
    }

    /// How many markets are tracked.
    pub fn market_count(&self) -> (r: usize)
        ensures
            r == self.markets.len(),
    {
        self.markets.len()
    }

    fn count_binary(&self, binary: bool) -> (r: usize)
        ensures
            r == self.markets@.filter(|m: MultiOutcomeState| (m.outcome_count == 2) == binary).len(),
    {
        let ghost keep = |m: MultiOutcomeState| (m.outcome_count == 2) == binary;
        let mut count: usize = 0;
        let mut i: usize = 0;
        proof {
            reveal(Seq::filter);
            assert(self.markets@.take(0) =~= Seq::empty());
        }
        while i < self.markets.len()
            invariant
                keep == (|m: MultiOutcomeState| (m.outcome_count == 2) == binary),
                count <= i <= self.markets.len(),
                count == self.markets@.take(i as int).filter(keep).len(),
            decreases self.markets.len() - i,
        {
            proof {
                seqs::lemma_filter_next(self.markets@, keep, i as int);
            }
            if self.markets[i].is_binary() == binary {
                count = count + 1;
            }
            i = i + 1;
        }
        assert(self.markets@.take(i as int) =~= self.markets@);
        count
    }

    /// How many markets have two outcomes.
    pub fn binary_count(&self) -> (r: usize)
        ensures
            r == self.markets@.filter(|m: MultiOutcomeState| (m.outcome_count == 2) == true).len(),
    {
        self.count_binary(true)
    }

    /// How many markets have another number of outcomes.
    pub fn multi_count(&self) -> (r: usize)
        ensures
            r == self.markets@.filter(|m: MultiOutcomeState| (m.outcome_count == 2) == false).len(),
    {
        self.count_binary(false)
    }
}

impl Default for GlobalState {
    fn default() -> (r: Self)
        ensures
            r.wf(),
            r.markets@ == Seq::<MultiOutcomeState>::empty(),
            r.token_to_market@ == Map::<u64, (u16, usize)>::empty(),
            r.condition_to_market@ == Map::<u64, u16>::empty(),
    {
        GlobalState::new()
    }
}

/// After a market is added, each of its tokens leads to its own outcome,
/// unless a later token of the market has the same key.
pub proof fn law_entered_token_is_found(
    index: Map<u64, (u16, usize)>,
    market_id: u16,
    keys: Seq<u64>,
    n: int,
    k: int,
)
    requires
        0 <= k < n <= keys.len(),
        n <= usize::MAX,
        forall|j: int| k < j < n ==> #[trigger] keys[j] != keys[k],
    ensures
        tokens_entered(index, market_id, keys, n).dom().contains(keys[k]),
        tokens_entered(index, market_id, keys, n)[keys[k]] == (market_id, k as usize),
    decreases n,
{
    if n - 1 > k {
        law_entered_token_is_found(index, market_id, keys, n - 1, k);
    }
}

/// Adding a market changes the lookup of no token whose key is not among its own.
pub proof fn law_other_tokens_stay(
    index: Map<u64, (u16, usize)>,
    market_id: u16,
    keys: Seq<u64>,
    n: int,
    key: u64,
)
    requires
        0 <= n <= keys.len(),
        forall|j: int| 0 <= j < n ==> #[trigger] keys[j] != key,
    ensures
        tokens_entered(index, market_id, keys, n).dom().contains(key) == index.dom().contains(key),
        tokens_entered(index, market_id, keys, n)[key] == index[key],
    decreases n,
{
    if n > 0 {
        law_other_tokens_stay(index, market_id, keys, n - 1, key);
    }
}

/// Every market is binary or not: the two counts make up all markets.
pub proof fn law_counts_split(markets: Seq<MultiOutcomeState>)
    ensures
        markets.filter(|m: MultiOutcomeState| (m.outcome_count == 2) == true).len()
            + markets.filter(|m: MultiOutcomeState| (m.outcome_count == 2) == false).len()
            == markets.len(),
{
    seqs::lemma_filter_split(
        markets,
        |m: MultiOutcomeState| (m.outcome_count == 2) == true,
        |m: MultiOutcomeState| (m.outcome_count == 2) == false,
    );
}

// ---------------------------------------------------------------------------
// Prices and sizes as text
// ---------------------------------------------------------------------------

/// The price in cents nearest to `price` dollars, no more than 99.
pub open spec fn cents_of<Q: Quantity>(price: Q) -> int {
    let cents = price.times_spec(Q::from_int_spec(100)).rounded_spec(0, 0xffff);
    if cents > 99 {
        99
    } else if cents < 0 {
        0
    } else {
        cents as int
    }
}

/// The size in cents nearest to `size` dollars.
pub open spec fn size_cents_of<Q: Quantity>(size: Q) -> int {
    size.times_spec(Q::from_int_spec(100)).rounded_spec(0, 0xffff) as int
}

/// The cents of a price written "0.DD" or "0.D".
pub open spec fn plain_price(s: Seq<char>) -> Option<int> {
    if s.len() == 4 && s[0] == '0' && s[1] == '.' && text::is_digit(s[2]) && text::is_digit(
        s[3],
    ) {
        Some(text::digit_value(s[2]) * 10 + text::digit_value(s[3]))
    } else if s.len() == 3 && s[0] == '0' && s[1] == '.' && text::is_digit(s[2]) {
        Some(text::digit_value(s[2]) * 10)
    } else {
        None
    }
}

/// The price in cents that a text stands for; 0 where it is not a number.
pub open spec fn price_of_text<Q: Quantity>(s: Seq<char>) -> int {
    match plain_price(s) {
        Some(cents) => cents,
        None => match Q::parse_spec(s) {
            Some(price) => cents_of(price),
            None => 0,
        },
    }
}

/// The size in cents that a text stands for; 0 where it is not a number.
pub open spec fn size_of_text<Q: Quantity>(s: Seq<char>) -> int {
    match Q::parse_spec(s) {
        Some(size) => size_cents_of(size),
        None => 0,
    }
}

/// A price in dollars as cents, 0 to 99.
pub fn price_to_cents<Q: Quantity>(price: Q) -> (r: u16)
    ensures
        r == cents_of(price),
        r <= 99,
{
    let cents: i128 = price.times(Q::from_int(100)).rounded(0, 0xffff);
    if cents > 99 {
        99
    } else {
        cents as u16
    }
}

/// A price in cents as dollars. As cents again it is what it was.
pub fn cents_to_price<Q: Quantity>(cents: u16) -> (r: Q)
    ensures
        r == Q::from_int_spec(cents as i128).over_spec(Q::from_int_spec(100)),
        cents <= 99 ==> cents_of(r) == cents,
{
    Q::hundredths(cents)
}

/// A fixed-point price made from whole cents gives them back.
pub proof fn law_cents_survive_the_price(cents: u16)
    requires
        cents <= 99,
    ensures
        cents_of(
            Decimal::from_int_spec(cents as i128).over_spec(Decimal::from_int_spec(100)),
        ) == cents,
{
    let hundred = Decimal::from_int_spec(100);
    let price = Decimal::from_int_spec(cents as i128).over_spec(hundred);
    assert(hundred.units == 100_000_000);
    assert(price.units == cents * 10_000);
    assert(price.units * hundred.units == cents * 10_000 * 100_000_000);
    assert(price.times_spec(hundred).units == cents * 1_000_000);
}

/// Reads a price. "0.DD" and "0.D" are read digit by digit, all else as a number.
pub fn parse_price<Q: Quantity>(s: &str) -> (r: u16)
    ensures
        r == price_of_text::<Q>(s@),
        r <= 99,
{
    if s.is_ascii() {
        proof {
            vstd::utf8::is_ascii_chars_encode_utf8(s@);
        }
        let bytes = s.as_bytes();
        if bytes.len() == 4 && bytes[0] == 48 && bytes[1] == 46 {
            let d1: u8 = bytes[2].wrapping_sub(48);
            let d2: u8 = bytes[3].wrapping_sub(48);
            if d1 < 10 && d2 < 10 {
                return d1 as u16 * 10 + d2 as u16;
            }
        }
        if bytes.len() == 3 && bytes[0] == 48 && bytes[1] == 46 {
            let d: u8 = bytes[2].wrapping_sub(48);
            if d < 10 {
                return d as u16 * 10;
            }
        }
    }
    match Q::parse(s) {
        Some(price) => price_to_cents(price),
        None => 0,
    }
}

/// Reads a size in dollars.
pub fn parse_size<Q: Quantity>(s: &str) -> (r: u16)
    ensures
        r == size_of_text::<Q>(s@),
{
    match Q::parse(s) {
        Some(size) => size.times(Q::from_int(100)).rounded(0, 0xffff) as u16,
        None => 0,
    }
}

/// What is bought and what is earned make a dollar: the profit and the sum of the
/// asks are 100 cents together, where 16 bits hold the sum. Beyond them the sum
/// is taken in 16 bits.
pub proof fn law_profit_and_cost_make_a_dollar(sum: int)
    ensures
        0 <= sum <= i16::MAX ==> profit_of(sum) + sum == 100,
        i16::MIN <= low_i16(sum) <= i16::MAX,
        (low_i16(sum) - sum) % 0x1_0000 == 0,
        profit_of(sum) + low_i16(sum) == 100,
{
}

/// A market of any number of outcomes is worth a profit exactly where every
/// outcome has an ask and all asks together are at least that much below a
/// dollar.
pub proof fn law_candidates_are_priced_below_a_dollar(
    market: MultiOutcomeState,
    min_profit_cents: i16,
)
    requires
        seqs::total(market.books@.map_values(|b: AtomicOutcomeBook| b@.ask_price)) <= i16::MAX,
    ensures
        is_candidate(market, min_profit_cents) <==> {
            &&& forall|i: int|
                0 <= i < market.books.len() ==> (#[trigger] market.books@[i])@.ask_price != 0
            &&& 100 - seqs::total(
                market.books@.map_values(|b: AtomicOutcomeBook| b@.ask_price),
            ) >= min_profit_cents
        },
{
    let prices = market.books@.map_values(|b: AtomicOutcomeBook| b@.ask_price);
    assert(ask_prices_of(market.books@) =~= prices);
    seqs::lemma_total_nonnegative(prices);
}

/// A new ask takes the place of the old one and leaves the bid and every other
/// outcome as they are.
pub proof fn law_ask_replaces_the_ask(
    market: MultiOutcomeState,
    after: MultiOutcomeState,
    index: int,
    price: u16,
    size: u16,
)
    requires
        0 <= index < market.books.len(),
        market.with_ask(index, price, size, after),
    ensures
        after.books.len() == market.books.len(),
        after.books@[index]@.ask_price == price,
        after.books@[index]@.ask_size == size,
        after.books@[index]@.bid_price == market.books@[index]@.bid_price,
        after.books@[index]@.bid_size == market.books@[index]@.bid_size,
        forall|i: int|
            0 <= i < market.books.len() && i != index ==> #[trigger] after.books@[i]
                == market.books@[i],
        after.market_id == market.market_id,
        after.condition_id == market.condition_id,
        after.outcomes == market.outcomes,
{
}

/// A price is the nearest number of cents, from 0 to 99; a size is the nearest
/// number of hundredths, from 0 to 65535. Halves go up.
pub proof fn law_prices_and_sizes_are_nearest(number: Decimal)
    requires
        -1_000_000_000_000 <= number.units <= 1_000_000_000_000,
    ensures
        ({
            let cents = cents_of(number);
            let size = size_cents_of(number);
            &&& 0 <= cents <= 99
            &&& 0 < cents < 99 ==> cents * 10_000 - 5_000 <= number.units < cents * 10_000 + 5_000
            &&& cents == 0 ==> number.units < 5_000
            &&& cents == 99 ==> number.units >= 985_000
            &&& 0 <= size <= 65_535
            &&& 0 < size < 65_535 ==> size * 10_000 - 5_000 <= number.units < size * 10_000 + 5_000
            &&& size == 0 ==> number.units < 5_000
            &&& size == 65_535 ==> number.units >= 655_345_000
        }),
{
    let hundred = Decimal::from_int_spec(100);
    assert(hundred.units == 100_000_000);
    assert(number.units * hundred.units == number.units * 100_000_000);
    assert(number.times_spec(hundred).units == number.units * 100);
}

/// A text that is no number is no price and no size; one that is, is read as the
/// price and size that it stands for.
pub proof fn law_texts_are_read_as_numbers(s: Seq<char>)
    ensures
        Decimal::parse_spec(s) is None ==> size_of_text::<Decimal>(s) == 0,
        Decimal::parse_spec(s) is Some ==> size_of_text::<Decimal>(s) == size_cents_of(
            Decimal::parse_spec(s).unwrap(),
        ),
        plain_price(s) is None && Decimal::parse_spec(s) is None ==> price_of_text::<Decimal>(s)
            == 0,
        plain_price(s) is None && Decimal::parse_spec(s) is Some ==> price_of_text::<Decimal>(s)
            == cents_of(Decimal::parse_spec(s).unwrap()),
{
}

/// Two digits behind "0." are the cents, and one is the tens of them.
pub proof fn law_plain_prices_are_their_digits(cents: nat, s: Seq<char>)
    requires
        cents < 100,
    ensures
        price_of_text::<Decimal>(
            seq![
                '0',
                '.',
                text::digit_char((cents / 10) as int),
                text::digit_char((cents % 10) as int),
            ],
        ) == cents,
        cents % 10 == 0 ==> price_of_text::<Decimal>(
            seq!['0', '.', text::digit_char((cents / 10) as int)],
        ) == cents,
        plain_price(s) is Some ==> s.len() >= 3 && s[0] == '0' && s[1] == '.',
{
}

/// So many contracts are on offer of each outcome, and of some outcome no more.
pub proof fn law_offer_is_that_of_the_scarcest(sizes: Seq<u16>)
    requires
        sizes.len() > 0,
    ensures
        forall|i: int| 0 <= i < sizes.len() ==> contracts_on_offer(sizes) * 100 <= #[trigger] sizes[i],
        exists|i: int|
            0 <= i < sizes.len() && #[trigger] sizes[i] < (contracts_on_offer(sizes) + 1) * 100,
{
    seqs::lemma_least(sizes);
    let at = choose|i: int| 0 <= i < sizes.len() && sizes[i] == seqs::least(sizes);
    assert(sizes[at] < (contracts_on_offer(sizes) + 1) * 100);
    assert forall|i: int| 0 <= i < sizes.len() implies contracts_on_offer(sizes) * 100
        <= #[trigger] sizes[i] by {
        assert(seqs::least(sizes) <= sizes[i]);
    }
}

/// A market enters without prices: it is no candidate before each outcome has an
/// ask.
pub proof fn law_fresh_market_is_no_candidate(
    market: MultiOutcomeState,
    market_id: u16,
    condition_id: Seq<char>,
    question: Seq<char>,
    outcomes: Seq<(String, String)>,
    min_profit_cents: i16,
    i: int,
)
    requires
        market.is_fresh(market_id, condition_id, question, outcomes),
        0 <= i < outcomes.len(),
    ensures
        !is_candidate(market, min_profit_cents),
        market.market_id == market_id,
        market.condition_id@ == condition_id,
        market.question@ == question,
        market.outcome_count == outcomes.len(),
        market.outcomes@[i].name == outcomes[i].0,
        market.outcomes@[i].token_id == outcomes[i].1,
        market.books@[i]@.ask_price == 0 && market.books@[i]@.bid_price == 0
            && market.books@[i]@.ask_size == 0 && market.books@[i]@.bid_size == 0,
{
    assert(market.books@[i]@.ask_price == 0);
}

} // verus!
